//! Checkbox write-back: ref checkboxes follow their targets' done states,
//! parent checkboxes follow their children.
use std::collections::HashMap;
use vstd::prelude::*;
use vstd::hash_map::StringHashMap;
use crate::parser::{
    checklist_items, compute_note_done_from_items, dep_done, fence_line, id_match_at,
    id_matches, indent_bytes, is_fence, is_todo_line, items_done, lemma_id_matches_from_bounds,
    lemma_line_bytes, lemma_todo_line_len, note_header, outside_fence, fence_open_before,
    parse_checklist_items, parse_header, range_byte_len, scan_id_matches, todo_line, todo_state,
    item_models,
};
use crate::reconcile::types::CheckboxWriteback;
use crate::text::{
    byte_offset, char_len, chars_of, ends_with_newline, ends_with_nl, join_with_newlines,
    lemma_utf8_len_concat, lemma_utf8_len_single, lines, rejoin, split_lines, str_byte_len,
    trim_start, utf8_len, views, ws_prefix_count, ws_prefix_len,
};

verus! {

// ---------------------------------------------------------------------------
// One checkbox line
// ---------------------------------------------------------------------------

/// The line with its checkbox state set to `st`: the char at index
/// `indent + 3` is replaced, where `indent` counts the bytes of the leading
/// white space.
pub open spec fn replace_state(line: Seq<char>, st: char) -> Option<Seq<char>> {
    let pos = indent_bytes(line) + 3;
    if is_todo_line(line) && pos < line.len() {
        Some(line.update(pos as int, st))
    } else {
        None
    }
}

/// Replacing one char by an ASCII char does not make a line longer in bytes.
pub proof fn lemma_update_ascii_bytes(line: Seq<char>, p: int, c: char)
    requires
        0 <= p < line.len(),
        char_len(c) == 1,
    ensures
        utf8_len(line.update(p, c)) <= utf8_len(line),
{
    let u = line.update(p, c);
    assert(line =~= line.take(p) + seq![line[p]] + line.skip(p + 1));
    assert(u =~= line.take(p) + seq![c] + line.skip(p + 1));
    lemma_utf8_len_concat(line.take(p) + seq![line[p]], line.skip(p + 1));
    lemma_utf8_len_concat(line.take(p), seq![line[p]]);
    lemma_utf8_len_concat(line.take(p) + seq![c], line.skip(p + 1));
    lemma_utf8_len_concat(line.take(p), seq![c]);
    lemma_utf8_len_single(c);
    lemma_utf8_len_single(line[p]);
}

fn todo_state_of(line: &Vec<char>) -> (r: Option<char>)
    requires
        utf8_len(line@) <= usize::MAX,
    ensures
        r == todo_state(line@),
{
    if !todo_line(line) {
        return None;
    }
    let w = ws_prefix_count(line, 0, line.len());
    proof {
        assert(line@.subrange(0, line@.len() as int) =~= line@);
        assert(line@.skip(w as int) =~= trim_start(line@));
        lemma_todo_line_len(line@);
    }
    Some(line[w + 3])
}

fn replace_state_of(line: &Vec<char>, st: char) -> (r: Option<Vec<char>>)
    requires
        utf8_len(line@) <= usize::MAX,
    ensures
        r matches Some(l) ==> replace_state(line@, st) == Some(l@),
        r is None ==> replace_state(line@, st) is None,
{
    if !todo_line(line) {
        return None;
    }
    let w = ws_prefix_count(line, 0, line.len());
    proof {
        assert(line@.subrange(0, line@.len() as int) =~= line@);
    }
    let indent = byte_offset(line, w);
    if indent >= line.len() || line.len() - indent <= 3 {
        return None;
    }
    let pos = indent + 3;
    let mut out = line.clone();
    out.set(pos, st);
    Some(out)
}

/// Whether `line` is a todo line: trimmed, it starts with "- [" and is at
/// least 5 bytes long.
pub fn is_todo(line: &str) -> (r: bool)
    ensures
        r == is_todo_line(line@),
{
    let cs = chars_of(line);
    let _n = str_byte_len(line);
    todo_line(&cs)
}

/// The char after "- [" of a todo line.
pub fn get_todo_state(line: &str) -> (r: Option<char>)
    ensures
        r == todo_state(line@),
{
    let cs = chars_of(line);
    let _n = str_byte_len(line);
    todo_state_of(&cs)
}

/// The line with its checkbox state replaced by `new_state`.
pub fn replace_todo_state(line: &str, new_state: char) -> (r: Option<String>)
    ensures
        r matches Some(l) ==> replace_state(line@, new_state) == Some(l@),
        r is None ==> replace_state(line@, new_state) is None,
{
    let cs = chars_of(line);
    let _n = str_byte_len(line);
    match replace_state_of(&cs, new_state) {
        Some(l) => Some(crate::text::string_from_chars(&l)),
        None => None,
    }
}

// ---------------------------------------------------------------------------
// Line rewrites
// ---------------------------------------------------------------------------

/// The lines with the given replacements applied.
pub open spec fn apply_edits(ls: Seq<Seq<char>>, edits: Seq<Option<Seq<char>>>) -> Seq<Seq<char>> {
    Seq::new(
        ls.len(),
        |i: int|
            match edits[i] {
                Some(l) => l,
                None => ls[i],
            },
    )
}

/// `content` unchanged when no line is replaced; otherwise its lines with
/// the replacements, joined by `'\n'`, with a final `'\n'` when `content`
/// has one.
pub open spec fn rewrite(content: Seq<char>, edits: Seq<Option<Seq<char>>>) -> Seq<char> {
    let ls = lines(content);
    if exists|i: int| 0 <= i < ls.len() && #[trigger] edits[i] is Some {
        rejoin(apply_edits(ls, edits), ends_with_newline(content))
    } else {
        content
    }
}

/// The `@ID`s of a line, in order.
pub open spec fn line_ids(line: Seq<char>) -> Seq<Seq<char>> {
    id_matches(line, '@', false).map_values(|p: int| line.subrange(p + 1, p + 11))
}

/// The rewrite of line `i` by the ref sync: a visible todo line with `@ID`s
/// is checked exactly when every ID is done.
pub open spec fn sync_edit(ls: Seq<Seq<char>>, i: int, m: Map<Seq<char>, bool>) -> Option<Seq<char>> {
    let line = ls[i];
    let ids = line_ids(line);
    if !outside_fence(ls, i) || !is_todo_line(line) || ids.len() == 0 {
        None
    } else {
        let st = if forall|k: int| 0 <= k < ids.len() ==> dep_done(m, #[trigger] ids[k]) {
            'x'
        } else {
            ' '
        };
        if todo_state(line) == Some(st) {
            None
        } else {
            replace_state(line, st)
        }
    }
}

pub open spec fn ref_sync(content: Seq<char>, m: Map<Seq<char>, bool>) -> Seq<char> {
    let ls = lines(content);
    rewrite(content, Seq::new(ls.len(), |i: int| sync_edit(ls, i, m)))
}

/// The writeback's checkbox char; `Keep` gives none.
pub open spec fn writeback_char(w: CheckboxWriteback) -> Option<char> {
    match w {
        CheckboxWriteback::Checked => Some('x'),
        CheckboxWriteback::Unchecked => Some(' '),
        CheckboxWriteback::Keep => None,
    }
}

/// The rewrite of line `i` by the per-line writebacks.
pub open spec fn by_line_edit(ls: Seq<Seq<char>>, i: int, m: Map<usize, CheckboxWriteback>) -> Option<
    Seq<char>,
> {
    let line = ls[i];
    if !outside_fence(ls, i) || !is_todo_line(line) || id_matches(line, '@', false).len() == 0
        || !m.contains_key(i as usize) {
        None
    } else {
        match writeback_char(m[i as usize]) {
            None => None,
            Some(st) => if todo_state(line) == Some(st) {
                None
            } else {
                replace_state(line, st)
            },
        }
    }
}

pub open spec fn by_line_sync(content: Seq<char>, m: Map<usize, CheckboxWriteback>) -> Seq<char> {
    let ls = lines(content);
    rewrite(content, Seq::new(ls.len(), |i: int| by_line_edit(ls, i, m)))
}

/// Builds `rewrite(content, edits)` from the split lines and the computed
/// replacements.
fn finish_rewrite(
    content: &str,
    cs: &Vec<char>,
    ls: &Vec<Vec<char>>,
    out: &Vec<Vec<char>>,
    changed: bool,
    edits: Ghost<Seq<Option<Seq<char>>>>,
) -> (r: String)
    requires
        cs@ == content@,
        views(ls@) == lines(content@),
        edits@.len() == ls.len(),
        views(out@) == apply_edits(views(ls@), edits@),
        changed == exists|i: int| 0 <= i < ls.len() && #[trigger] edits@[i] is Some,
    ensures
        r@ == rewrite(content@, edits@),
{
    if !changed {
        content.to_owned()
    } else {
        let trailing = ends_with_nl(cs);
        join_with_newlines(out, trailing)
    }
}

/// Update ref checkboxes (`- [ ] @ID`) from the done states of their
/// targets: checked exactly when every target is done. Fenced blocks are
/// left alone. Content without any change is returned as it is.
pub fn update_ref_checkboxes_sync(content: &str, dep_states: &StringHashMap<bool>) -> (r: String)
    ensures
        r@ == ref_sync(content@, dep_states@),
{
    let cs = chars_of(content);
    let total = str_byte_len(content);
    let ls = split_lines(&cs);
    let ghost lv = lines(content@);
    let ghost edits = Seq::new(lv.len(), |i: int| sync_edit(lv, i, dep_states@));
    let mut out: Vec<Vec<char>> = Vec::new();
    let mut changed = false;
    let mut in_fence = false;
    let mut i: usize = 0;
    while i < ls.len()
        invariant
            i <= ls.len(),
            views(ls@) == lv,
            lv == lines(content@),
            total == utf8_len(content@),
            edits == Seq::new(lv.len(), |i: int| sync_edit(lv, i, dep_states@)),
            in_fence == fence_open_before(lv, i as int),
            views(out@) == apply_edits(lv, edits).take(i as int),
            changed == exists|k: int| 0 <= k < i && #[trigger] edits[k] is Some,
        decreases ls.len() - i,
    {
        let line = &ls[i];
        assert(line@ == lv[i as int]);
        proof {
            lemma_line_bytes(content@, i as int);
        }
        let mut new_line: Option<Vec<char>> = None;
        if fence_line(line) {
            in_fence = !in_fence;
        } else if !in_fence && todo_line(line) {
            let positions = scan_id_matches(line, '@', false);
            proof {
                lemma_id_matches_from_bounds(line@, 0, '@', false);
            }
            let ghost pos = positions@.map_values(|x: usize| x as int);
            let ghost ids = line_ids(line@);
            if positions.len() > 0 {
                let mut all_done = true;
                let mut k: usize = 0;
                while k < positions.len()
                    invariant
                        k <= positions.len(),
                        pos == positions@.map_values(|x: usize| x as int),
                        pos == id_matches(line@, '@', false),
                        ids == line_ids(line@),
                        forall|q: int| 0 <= q < pos.len() ==> id_match_at(line@, #[trigger] pos[q], '@', false),
                        all_done == forall|j: int| 0 <= j < k ==> dep_done(dep_states@, #[trigger] ids[j]),
                    decreases positions.len() - k,
                {
                    let p = positions[k];
                    assert(id_match_at(line@, pos[k as int], '@', false));
                    assert(pos[k as int] == p as int);
                    assert(p + 11 <= line@.len());
                    assert(line@.len() == line.len());
                    let id = crate::text::string_from_range(line, p + 1, p + 11);
                    assert(id@ == ids[k as int]);
                    let done = match dep_states.get(id.as_str()) {
                        Some(b) => *b,
                        None => false,
                    };
                    if !done {
                        all_done = false;
                    }
                    k += 1;
                }
                let st = if all_done {
                    'x'
                } else {
                    ' '
                };
                let cur = todo_state_of(line);
                let differs = match cur {
                    Some(c) => c != st,
                    None => true,
                };
                if differs {
                    new_line = replace_state_of(line, st);
                }
            }
        }
        assert(new_line matches Some(l) ==> edits[i as int] == Some(l@));
        assert(new_line is None ==> edits[i as int] is None);
        let ghost before = out@;
        let pushed = match new_line {
            Some(l) => {
                changed = true;
                l
            },
            None => crate::parser::subvec(line, 0, line.len()),
        };
        assert(pushed@ == apply_edits(lv, edits)[i as int]);
        out.push(pushed);
        assert(views(out@) =~= views(before).push(apply_edits(lv, edits)[i as int]));
        assert(views(out@) =~= apply_edits(lv, edits).take(i + 1));
        i += 1;
    }
    assert(apply_edits(lv, edits).take(ls.len() as int) =~= apply_edits(lv, edits));
    finish_rewrite(content, &cs, &ls, &out, changed, Ghost(edits))
}

/// Apply the per-line checkbox writebacks to ref checkboxes: `Checked`
/// checks, `Unchecked` unchecks, `Keep` and lines without an entry stay.
pub fn update_ref_checkboxes_by_line(
    content: &str,
    checked_by_line: &HashMap<usize, CheckboxWriteback>,
) -> (r: String)
    ensures
        r@ == by_line_sync(content@, checked_by_line@),
{
    broadcast use vstd::std_specs::hash::group_hash_axioms;

    let cs = chars_of(content);
    let total = str_byte_len(content);
    let ls = split_lines(&cs);
    let ghost lv = lines(content@);
    let ghost edits = Seq::new(lv.len(), |i: int| by_line_edit(lv, i, checked_by_line@));
    let mut out: Vec<Vec<char>> = Vec::new();
    let mut changed = false;
    let mut in_fence = false;
    let mut i: usize = 0;
    while i < ls.len()
        invariant
            i <= ls.len(),
            views(ls@) == lv,
            lv == lines(content@),
            total == utf8_len(content@),
            edits == Seq::new(lv.len(), |i: int| by_line_edit(lv, i, checked_by_line@)),
            in_fence == fence_open_before(lv, i as int),
            views(out@) == apply_edits(lv, edits).take(i as int),
            changed == exists|k: int| 0 <= k < i && #[trigger] edits[k] is Some,
        decreases ls.len() - i,
    {
        let line = &ls[i];
        assert(line@ == lv[i as int]);
        proof {
            lemma_line_bytes(content@, i as int);
        }
        let mut new_line: Option<Vec<char>> = None;
        if fence_line(line) {
            in_fence = !in_fence;
        } else if !in_fence && todo_line(line) {
            let positions = scan_id_matches(line, '@', false);
            if positions.len() > 0 {
                match checked_by_line.get(&i) {
                    Some(w) => {
                        let st = match w {
                            CheckboxWriteback::Checked => Some('x'),
                            CheckboxWriteback::Unchecked => Some(' '),
                            CheckboxWriteback::Keep => None,
                        };
                        match st {
                            Some(st) => {
                                let cur = todo_state_of(line);
                                let differs = match cur {
                                    Some(c) => c != st,
                                    None => true,
                                };
                                if differs {
                                    new_line = replace_state_of(line, st);
                                }
                            },
                            None => {},
                        }
                    },
                    None => {},
                }
            }
        }
        assert(new_line matches Some(l) ==> edits[i as int] == Some(l@));
        assert(new_line is None ==> edits[i as int] is None);
        let ghost before = out@;
        let pushed = match new_line {
            Some(l) => {
                changed = true;
                l
            },
            None => crate::parser::subvec(line, 0, line.len()),
        };
        assert(pushed@ == apply_edits(lv, edits)[i as int]);
        out.push(pushed);
        assert(views(out@) =~= views(before).push(apply_edits(lv, edits)[i as int]));
        assert(views(out@) =~= apply_edits(lv, edits).take(i + 1));
        i += 1;
    }
    assert(apply_edits(lv, edits).take(ls.len() as int) =~= apply_edits(lv, edits));
    finish_rewrite(content, &cs, &ls, &out, changed, Ghost(edits))
}


// ---------------------------------------------------------------------------
// Parent checkboxes
// ---------------------------------------------------------------------------

/// The visible todo lines among the first `n`, with their indent in bytes.
pub open spec fn todo_items_upto(ls: Seq<Seq<char>>, n: int) -> Seq<(int, int)>
    decreases n,
{
    if n <= 0 {
        seq![]
    } else {
        let prev = todo_items_upto(ls, n - 1);
        if outside_fence(ls, n - 1) && is_todo_line(ls[n - 1]) {
            prev.push((n - 1, indent_bytes(ls[n - 1]) as int))
        } else {
            prev
        }
    }
}

pub proof fn lemma_todo_items_bounds(ls: Seq<Seq<char>>, n: int)
    requires
        0 <= n <= ls.len(),
    ensures
        forall|k: int|
            0 <= k < todo_items_upto(ls, n).len() ==> 0 <= (#[trigger] todo_items_upto(ls, n)[k]).0 < n,
    decreases n,
{
    if n > 0 {
        lemma_todo_items_bounds(ls, n - 1);
        let prev = todo_items_upto(ls, n - 1);
        assert forall|k: int| 0 <= k < todo_items_upto(ls, n).len() implies 0 <= (
        #[trigger] todo_items_upto(ls, n)[k]).0 < n by {
            if k < prev.len() {
                assert(todo_items_upto(ls, n)[k] == prev[k]);
            }
        }
    }
}

/// The first item after `i`, from `j` on, whose indent is not greater than
/// item `i`'s; `items.len()` when there is none. Items `i + 1 .. end` are
/// the descendants of item `i`.
pub open spec fn desc_end_from(items: Seq<(int, int)>, i: int, j: int) -> int
    decreases items.len() - j,
{
    if j < 0 || j >= items.len() || items[j].1 <= items[i].1 {
        j
    } else {
        desc_end_from(items, i, j + 1)
    }
}

/// Item `i` takes the state of its descendants: checked when every
/// descendant is checked and, for a ref item, when it is itself checked.
pub open spec fn nested_step(cur: Seq<Seq<char>>, items: Seq<(int, int)>, i: int) -> Seq<Seq<char>> {
    let li = items[i].0;
    let e = desc_end_from(items, i, i + 1);
    if e == i + 1 {
        cur
    } else {
        let line = cur[li];
        let all_done = forall|j: int| i < j < e ==> todo_state(cur[#[trigger] items[j].0]) == Some('x');
        let ref_ok = id_matches(line, '@', false).len() == 0 || todo_state(line) == Some('x');
        let st = if all_done && ref_ok {
            'x'
        } else {
            ' '
        };
        if todo_state(line) != Some(st) && replace_state(line, st) is Some {
            cur.update(li, replace_state(line, st)->0)
        } else {
            cur
        }
    }
}

/// The lines after the last `k` items were processed, last item first.
pub open spec fn nested_after(ls: Seq<Seq<char>>, items: Seq<(int, int)>, k: int) -> Seq<Seq<char>>
    decreases k,
{
    if k <= 0 {
        ls
    } else {
        nested_step(nested_after(ls, items, k - 1), items, items.len() - k)
    }
}

/// Parent checkboxes derived from their children, processed bottom-up;
/// the lines are joined again with `'\n'` and the final `'\n'` kept.
pub open spec fn nested(content: Seq<char>) -> Seq<char> {
    let ls = lines(content);
    let items = todo_items_upto(ls, ls.len() as int);
    rejoin(nested_after(ls, items, items.len() as int), ends_with_newline(content))
}

/// Bottom-up update of parent checkboxes from their descendants.
pub fn update_nested_checkboxes(content: &str) -> (r: String)
    ensures
        r@ == nested(content@),
{
    let cs = chars_of(content);
    let total = str_byte_len(content);
    let ls = split_lines(&cs);
    let ghost lv = lines(content@);
    let mut items: Vec<(usize, usize)> = Vec::new();
    let mut in_fence = false;
    let mut i: usize = 0;
    while i < ls.len()
        invariant
            i <= ls.len(),
            views(ls@) == lv,
            lv == lines(content@),
            total == utf8_len(content@),
            in_fence == fence_open_before(lv, i as int),
            items@.map_values(|x: (usize, usize)| (x.0 as int, x.1 as int)) == todo_items_upto(lv, i as int),
        decreases ls.len() - i,
    {
        let line = &ls[i];
        assert(line@ == lv[i as int]);
        proof {
            lemma_line_bytes(content@, i as int);
        }
        if fence_line(line) {
            in_fence = !in_fence;
        } else if !in_fence && todo_line(line) {
            let w = ws_prefix_count(line, 0, line.len());
            assert(line@.subrange(0, line@.len() as int) =~= line@);
            let indent = byte_offset(line, w);
            let ghost before = items@;
            items.push((i, indent));
            assert(items@.map_values(|x: (usize, usize)| (x.0 as int, x.1 as int)) =~= before.map_values(|x: (usize, usize)| (x.0 as int, x.1 as int)).push((i as int, indent as int)));
        }
        i += 1;
    }
    let ghost iv = items@.map_values(|x: (usize, usize)| (x.0 as int, x.1 as int));
    proof {
        lemma_todo_items_bounds(lv, lv.len() as int);
    }
    let mut owned = split_lines(&cs);
    proof {
        assert forall|q: int| 0 <= q < owned.len() implies utf8_len(#[trigger] owned@[q]@) <= usize::MAX by {
            assert(owned@[q]@ == views(owned@)[q]);
            lemma_line_bytes(content@, q);
        }
    }
    let n = items.len();
    let mut k: usize = 0;
    while k < n
        invariant
            k <= n == items.len(),
            iv == items@.map_values(|x: (usize, usize)| (x.0 as int, x.1 as int)),
            iv == todo_items_upto(lv, lv.len() as int),
            forall|q: int| 0 <= q < iv.len() ==> 0 <= (#[trigger] iv[q]).0 < lv.len(),
            views(owned@) == nested_after(lv, iv, k as int),
            owned.len() == lv.len(),
            forall|q: int| 0 <= q < owned.len() ==> utf8_len(#[trigger] owned@[q]@) <= usize::MAX,
        decreases n - k,
    {
        let idx = n - 1 - k;
        let (li, ind) = items[idx];
        assert(iv[idx as int] == (li as int, ind as int));
        let ghost cur = views(owned@);
        let mut e = idx + 1;
        while e < n && items[e].1 > ind
            invariant
                idx < e <= n == items.len(),
                iv == items@.map_values(|x: (usize, usize)| (x.0 as int, x.1 as int)),
                iv[idx as int] == (li as int, ind as int),
                desc_end_from(iv, idx as int, idx + 1) == desc_end_from(iv, idx as int, e as int),
            decreases n - e,
        {
            e += 1;
        }
        if e > idx + 1 {
            let mut all_done = true;
            let mut j = idx + 1;
            while j < e
                invariant
                    idx < j <= e <= n == items.len(),
                    iv == items@.map_values(|x: (usize, usize)| (x.0 as int, x.1 as int)),
                    forall|q: int| 0 <= q < iv.len() ==> 0 <= (#[trigger] iv[q]).0 < lv.len(),
                    cur == views(owned@),
                    owned.len() == lv.len(),
                    forall|q: int| 0 <= q < owned.len() ==> utf8_len(#[trigger] owned@[q]@) <= usize::MAX,
                    all_done == forall|q: int| idx < q < j ==> todo_state(cur[#[trigger] iv[q].0]) == Some('x'),
                decreases e - j,
            {
                let (cj, _) = items[j];
                assert(iv[j as int].0 == cj as int);
                assert(owned@[cj as int]@ == cur[cj as int]);
                match todo_state_of(&owned[cj]) {
                    Some(c) => {
                        if c != 'x' {
                            all_done = false;
                        }
                    },
                    None => {
                        all_done = false;
                    },
                }
                j += 1;
            }
            assert(owned@[li as int]@ == cur[li as int]);
            let positions = scan_id_matches(&owned[li], '@', false);
            let state = todo_state_of(&owned[li]);
            let ref_ok = positions.len() == 0 || state == Some('x');
            let st = if all_done && ref_ok {
                'x'
            } else {
                ' '
            };
            let differs = match state {
                Some(c) => c != st,
                None => true,
            };
            if differs {
                match replace_state_of(&owned[li], st) {
                    Some(new_line) => {
                        proof {
                            let line = cur[li as int];
                            lemma_update_ascii_bytes(line, (indent_bytes(line) + 3) as int, st);
                        }
                        owned.set(li, new_line);
                        assert(views(owned@) =~= nested_step(cur, iv, idx as int));
                    },
                    None => {
                        assert(views(owned@) =~= nested_step(cur, iv, idx as int));
                    },
                }
            } else {
                assert(views(owned@) =~= nested_step(cur, iv, idx as int));
            }
        } else {
            assert(views(owned@) =~= nested_step(cur, iv, idx as int));
        }
        assert(idx as int == iv.len() - (k + 1));
        k += 1;
    }
    let trailing = ends_with_nl(&cs);
    join_with_newlines(&owned, trailing)
}

// ---------------------------------------------------------------------------
// Notes
// ---------------------------------------------------------------------------

/// A note is done when it has a valid header and either no checklist items
/// or every leaf item holds under `deps`.
pub open spec fn note_done_with_deps(content: Seq<char>, m: Map<Seq<char>, bool>) -> bool {
    note_header(content) is Some && checklist_done(content, m)
}

/// A note's checklist is done when it has no items or every leaf item
/// holds under `m`.
pub open spec fn checklist_done(content: Seq<char>, m: Map<Seq<char>, bool>) -> bool {
    let items = checklist_items(content);
    items.len() == 0 || (forall|i: int| 0 <= i < items.len() && {
        i + 1 >= items.len() || items[i + 1].indent <= items[i].indent
    } ==> #[trigger] model_truth(items[i], m))
}

/// The truth of an item model: its checkbox, or for a ref item that every
/// target is done.
pub open spec fn model_truth(it: crate::parser::ItemModel, m: Map<Seq<char>, bool>) -> bool {
    if it.targets.len() == 0 {
        it.checked
    } else {
        forall|k: int| 0 <= k < it.targets.len() ==> dep_done(m, #[trigger] it.targets[k].id)
    }
}

pub fn is_note_done_with_deps(content: &str, deps: &StringHashMap<bool>) -> (r: bool)
    ensures
        r == note_done_with_deps(content@, deps@),
{
    if parse_header(content).is_none() {
        return false;
    }
    is_checklist_done(content, deps)
}

/// Whether the checklist of `content` is done under `deps`.
pub fn is_checklist_done(content: &str, deps: &StringHashMap<bool>) -> (r: bool)
    ensures
        r == checklist_done(content@, deps@),
{
    let items = parse_checklist_items(content);
    if items.len() == 0 {
        return true;
    }
    let r = compute_note_done_from_items(items.as_slice(), deps);
    proof {
        let ms = item_models(items@);
        assert forall|i: int| 0 <= i < items.len() implies #[trigger] crate::parser::item_truth(items@[i], deps@) == model_truth(ms[i], deps@) by {
            let it = items@[i];
            assert(it.wf());
            if it.kind is Ref {
                assert(ms[i].targets == it.kind->targets@.map_values(|t: crate::parser::RefTarget| t@));
                assert forall|k: int| 0 <= k < it.kind->targets@.len() implies (#[trigger] it.kind->targets@[k]).target_id@ == ms[i].targets[k].id by {}
            }
        }
        if r {
            assert(items_done(items@, deps@));
        }
    }
    r
}

pub fn is_note_done(content: &str) -> (r: bool)
    ensures
        r == note_done_with_deps(content@, Map::empty()),
{
    let deps = StringHashMap::<bool>::new();
    is_note_done_with_deps(content, &deps)
}

pub fn normalize_note(content: &str, dep_states: &StringHashMap<bool>) -> (r: String)
    ensures
        r@ == nested(ref_sync(content@, dep_states@)),
{
    let after_refs = update_ref_checkboxes_sync(content, dep_states);
    update_nested_checkboxes(after_refs.as_str())
}

pub fn normalize_note_from_checked(
    content: &str,
    checked_by_line: &HashMap<usize, CheckboxWriteback>,
) -> (r: String)
    ensures
        r@ == nested(by_line_sync(content@, checked_by_line@)),
{
    let after_refs = update_ref_checkboxes_by_line(content, checked_by_line);
    update_nested_checkboxes(after_refs.as_str())
}

} // verus!
