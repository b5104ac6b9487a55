//! Code actions: fixes for legacy references, and metadata edits in the
//! metadata index (checklist status, relation).
use vstd::prelude::*;
use crate::metadata::{current_record, current_record_id, field_line_from, find_field_line_range, note_id_spec, is_note_id};
use crate::note_ops::entry_value;
use crate::parser::{checklist_status_from_name, checklist_status_name, starts_with, ChecklistStatus};
use crate::text::{chars_of, join_sep, lines, push_str, split_lines, string_from_chars, trim_start, utf8_len, views, ws_suffix_len};
use crate::toml_value::{entry_models, lemma_entry_models, parse_toml_document, toml_document, TomlModel, TomlValue};

verus! {

/// A range of a document: 0-based lines, byte columns.
#[derive(Debug, Clone, Copy, PartialEq, Eq, Structural)]
pub struct TextRange {
    pub start_line: usize,
    pub start_col: usize,
    pub end_line: usize,
    pub end_col: usize,
}

/// A replacement of a range by text.
#[derive(Debug)]
pub struct LineEdit {
    pub range: TextRange,
    pub new_text: String,
}

#[derive(Debug, Clone, Copy, PartialEq, Eq, Structural)]
pub enum ActionKind {
    QuickFix,
    Refactor,
}

/// A code action: its title, kind, the diagnostic it fixes (by index), and
/// its edits of the document.
#[derive(Debug)]
pub struct ZkAction {
    pub title: String,
    pub kind: ActionKind,
    pub diagnostic: Option<usize>,
    pub edits: Vec<LineEdit>,
}

pub struct ActionModel {
    pub title: Seq<char>,
    pub kind: ActionKind,
    pub diagnostic: Option<usize>,
    pub edits: Seq<(TextRange, Seq<char>)>,
}

impl View for ZkAction {
    type V = ActionModel;

    open spec fn view(&self) -> ActionModel {
        ActionModel {
            title: self.title@,
            kind: self.kind,
            diagnostic: self.diagnostic,
            edits: self.edits@.map_values(|e: LineEdit| (e.range, e.new_text@)),
        }
    }
}

pub open spec fn action_models(v: Seq<ZkAction>) -> Seq<ActionModel> {
    v.map_values(|a: ZkAction| a@)
}

fn one_edit(range: TextRange, new_text: String) -> (r: Vec<LineEdit>)
    ensures
        r@.map_values(|e: LineEdit| (e.range, e.new_text@)) == seq![(range, new_text@)],
{
    let r = vec![LineEdit { range, new_text }];
    assert(r@.map_values(|e: LineEdit| (e.range, e.new_text@)) =~= seq![(range, new_text@)]);
    r
}

fn push_action(out: &mut Vec<ZkAction>, a: ZkAction)
    ensures
        action_models(final(out)@) == action_models(old(out)@).push(a@),
{
    let ghost before = out@;
    out.push(a);
    assert(action_models(out@) =~= action_models(before).push(a@));
}

fn concat(a: &str, b: &str) -> (r: String)
    ensures
        r@ == a@ + b@,
{
    let mut v = chars_of(a);
    push_str(&mut v, b);
    string_from_chars(&v)
}

// ---------------------------------------------------------------------------
// Fixes for references to legacy notes
// ---------------------------------------------------------------------------

/// What a diagnostic of this server carries for its fixes.
#[derive(Debug)]
pub struct DiagnosticData {
    pub kind: String,
    pub old_id: String,
    pub new_ids: Option<Vec<String>>,
    pub replacement: Option<String>,
}

/// A diagnostic as the code actions read it.
#[derive(Debug)]
pub struct ActionDiagnostic {
    pub source: Option<String>,
    pub range: TextRange,
    pub data: Option<DiagnosticData>,
}

pub open spec fn quick_fix(d: usize, title: Seq<char>, range: TextRange, new_text: Seq<char>) -> ActionModel {
    ActionModel { title, kind: ActionKind::QuickFix, diagnostic: Some(d), edits: seq![(range, new_text)] }
}

pub open spec fn at_id(id: Seq<char>) -> Seq<char> {
    seq!['@'] + id
}

/// The two fixes for one new ID: replace, or keep and append.
pub open spec fn id_fixes(d: usize, range: TextRange, old: Seq<char>, new_id: Seq<char>) -> Seq<ActionModel> {
    seq![
        quick_fix(d, "Fix: Replace "@ + at_id(old) + " with "@ + at_id(new_id), range, at_id(new_id)),
        quick_fix(d, "Fix: Keep "@ + at_id(old) + " and append "@ + at_id(new_id), range, at_id(old) + " "@ + at_id(new_id)),
    ]
}

pub open spec fn id_fixes_upto(d: usize, range: TextRange, old: Seq<char>, ids: Seq<Seq<char>>, n: int) -> Seq<ActionModel>
    decreases n,
{
    if n <= 0 {
        seq![]
    } else {
        id_fixes_upto(d, range, old, ids, n - 1) + id_fixes(d, range, old, ids[n - 1])
    }
}

/// The fixes of diagnostic `d`: for each new ID a replacement and an
/// append; with several new IDs, also a replacement by all of them.
pub open spec fn diagnostic_fixes(d: usize, range: TextRange, old: Seq<char>, ids: Seq<Seq<char>>) -> Seq<ActionModel> {
    let each = id_fixes_upto(d, range, old, ids, ids.len() as int);
    if ids.len() > 1 {
        each.push(
            quick_fix(
                d,
                "Fix: Replace "@ + at_id(old) + " with all relation-target IDs"@,
                range,
                join_sep(ids.map_values(|id: Seq<char>| at_id(id)), " "@),
            ),
        )
    } else {
        each
    }
}

pub open spec fn names_of(v: Seq<String>) -> Seq<Seq<char>> {
    v.map_values(|s: String| s@)
}

/// The fixes of the diagnostics `diags[..n]` that this server produced
/// with new IDs.
pub open spec fn code_actions_upto(diags: Seq<ActionDiagnostic>, n: int) -> Seq<ActionModel>
    decreases n,
{
    if n <= 0 {
        seq![]
    } else {
        let prev = code_actions_upto(diags, n - 1);
        let d = diags[n - 1];
        if d.source.is_some() && d.source.unwrap()@ == "zk-lsp"@ && d.data.is_some() && d.data.unwrap().new_ids.is_some()
            && d.data.unwrap().new_ids.unwrap().len() > 0 {
            prev + diagnostic_fixes(
                (n - 1) as usize,
                d.range,
                d.data.unwrap().old_id@,
                names_of(d.data.unwrap().new_ids.unwrap()@),
            )
        } else {
            prev
        }
    }
}

fn at_id_exec(id: &str) -> (r: String)
    ensures
        r@ == at_id(id@),
{
    let mut v: Vec<char> = Vec::new();
    v.push('@');
    push_str(&mut v, id);
    assert(v@ =~= at_id(id@));
    string_from_chars(&v)
}

/// The quick fixes for this server's diagnostics on references whose note
/// has new IDs.
pub fn get_code_actions(diagnostics: &[ActionDiagnostic]) -> (r: Vec<ZkAction>)
    ensures
        action_models(r@) == code_actions_upto(diagnostics@, diagnostics.len() as int),
{
    let mut out: Vec<ZkAction> = Vec::new();
    let mut i: usize = 0;
    assert(action_models(out@) =~= Seq::<ActionModel>::empty());
    while i < diagnostics.len()
        invariant
            i <= diagnostics.len(),
            action_models(out@) == code_actions_upto(diagnostics@, i as int),
        decreases diagnostics.len() - i,
    {
        let d = &diagnostics[i];
        let ours = match &d.source {
            Some(s) => crate::text::str_eq(s.as_str(), "zk-lsp"),
            None => false,
        };
        if ours {
            match &d.data {
                Some(data) => match &data.new_ids {
                    Some(ids) => {
                        if ids.len() > 0 {
                            let ghost base = action_models(out@);
                            let ghost idn = names_of(ids@);
                            let old_text = at_id_exec(data.old_id.as_str());
                            let mut k: usize = 0;
                            while k < ids.len()
                                invariant
                                    k <= ids.len(),
                                    idn == names_of(ids@),
                                    old_text@ == at_id(data.old_id@),
                                    action_models(out@) == base + id_fixes_upto(i, d.range, data.old_id@, idn, k as int),
                                decreases ids.len() - k,
                            {
                                let new_text = at_id_exec(ids[k].as_str());
                                assert(idn[k as int] == ids@[k as int]@);
                                let t1 = concat(concat(concat("Fix: Replace ", old_text.as_str()).as_str(), " with ").as_str(), new_text.as_str());
                                push_action(&mut out, ZkAction { title: t1, kind: ActionKind::QuickFix, diagnostic: Some(i), edits: one_edit(d.range, new_text.clone()) });
                                let t2 = concat(concat(concat("Fix: Keep ", old_text.as_str()).as_str(), " and append ").as_str(), new_text.as_str());
                                let both = concat(concat(old_text.as_str(), " ").as_str(), new_text.as_str());
                                push_action(&mut out, ZkAction { title: t2, kind: ActionKind::QuickFix, diagnostic: Some(i), edits: one_edit(d.range, both) });
                                proof {
                                    let f = id_fixes(i, d.range, data.old_id@, idn[k as int]);
                                    assert(base + id_fixes_upto(i, d.range, data.old_id@, idn, k + 1) =~= base + id_fixes_upto(i, d.range, data.old_id@, idn, k as int) + f);
                                    assert(action_models(out@) =~= base + id_fixes_upto(i, d.range, data.old_id@, idn, k + 1));
                                }
                                k += 1;
                            }
                            if ids.len() > 1 {
                                let mut parts: Vec<Vec<char>> = Vec::new();
                                let mut k: usize = 0;
                                while k < ids.len()
                                    invariant
                                        k <= ids.len(),
                                        idn == names_of(ids@),
                                        views(parts@) == idn.map_values(|id: Seq<char>| at_id(id)).take(k as int),
                                    decreases ids.len() - k,
                                {
                                    let p = chars_of(at_id_exec(ids[k].as_str()).as_str());
                                    let ghost before = views(parts@);
                                    parts.push(p);
                                    assert(views(parts@) =~= before.push(at_id(idn[k as int])));
                                    assert(idn.map_values(|id: Seq<char>| at_id(id)).take(k + 1) =~= idn.map_values(
                                        |id: Seq<char>| at_id(id),
                                    ).take(k as int).push(at_id(idn[k as int])));
                                    k += 1;
                                }
                                assert(idn.map_values(|id: Seq<char>| at_id(id)).take(ids.len() as int) =~= idn.map_values(
                                    |id: Seq<char>| at_id(id),
                                ));
                                let all = crate::text::join_parts(&parts, " ");
                                let t = concat(concat("Fix: Replace ", old_text.as_str()).as_str(), " with all relation-target IDs");
                                push_action(&mut out, ZkAction { title: t, kind: ActionKind::QuickFix, diagnostic: Some(i), edits: one_edit(d.range, string_from_chars(&all)) });
                            }
                        }
                    },
                    None => {},
                },
                None => {},
            }
        }
        i += 1;
    }
    out
}

// ---------------------------------------------------------------------------
// Metadata actions
// ---------------------------------------------------------------------------

/// The note ID of a `[notes."ID"` or `[notes.'ID'` header line.
pub open spec fn quoted_record_header(line: Seq<char>) -> Option<Seq<char>> {
    let t = trim_start(line);
    if !starts_with(t, "[notes."@) || t.len() <= 7 {
        None
    } else {
        let ap = t.skip(7);
        let q = ap[0];
        if q != '"' && q != '\'' {
            None
        } else {
            match crate::reconcile::observe::first_index(ap.skip(1), q, 0) {
                None => None,
                Some(e) => {
                    let id = ap.skip(1).take(e);
                    if note_id_spec(id) {
                        Some(id)
                    } else {
                        None
                    }
                },
            }
        }
    }
}

/// A table header line: trimmed it begins with `[` and ends with `]`.
pub open spec fn bracket_line(line: Seq<char>) -> bool {
    let t = trim_start(line);
    let e = line.len() - ws_suffix_len(line);
    t.len() > 0 && t[0] == '[' && e > 0 && line[e - 1] == ']'
}

/// The last line of record `id`, scanning from line `i` with the state
/// `inside` and the last line so far.
pub open spec fn record_end_from(ls: Seq<Seq<char>>, i: int, id: Seq<char>, inside: bool, last: Option<int>) -> Option<int>
    decreases ls.len() - i,
{
    if i < 0 || i >= ls.len() {
        last
    } else {
        let l = ls[i];
        match quoted_record_header(l) {
            Some(cur) => if inside && cur != id {
                last
            } else {
                let inside2 = cur == id;
                record_end_from(ls, i + 1, id, inside2, if inside2 { Some(i) } else { last })
            },
            None => if inside && bracket_line(l) {
                last
            } else {
                record_end_from(ls, i + 1, id, inside, if inside { Some(i) } else { last })
            },
        }
    }
}

/// The record `id` of the metadata index parsed as TOML.
pub open spec fn record_table(content: Seq<char>, id: Seq<char>) -> Option<Seq<(Seq<char>, TomlModel)>> {
    match toml_document(content) {
        Some(doc) => match entry_value(doc, "notes"@, 0) {
            Some(TomlModel::Table(notes)) => match entry_value(notes, id, 0) {
                Some(TomlModel::Table(rec)) => Some(rec),
                _ => None,
            },
            _ => None,
        },
        None => None,
    }
}

/// A string field of the record.
pub open spec fn record_str(content: Seq<char>, id: Seq<char>, key: Seq<char>) -> Option<Seq<char>> {
    match record_table(content, id) {
        Some(rec) => match entry_value(rec, key, 0) {
            Some(TomlModel::String(s)) => Some(s),
            _ => None,
        },
        None => None,
    }
}

/// The record's checklist status, `none` when absent or unknown.
pub open spec fn current_status(content: Seq<char>, id: Seq<char>) -> Seq<char> {
    match record_str(content, id, "checklist-status"@) {
        Some(s) => match checklist_status_from_name(s) {
            Some(st) => checklist_status_name(st),
            None => "none"@,
        },
        None => "none"@,
    }
}

/// The record's relation, `active` when absent.
pub open spec fn current_relation(content: Seq<char>, id: Seq<char>) -> Seq<char> {
    match record_str(content, id, "relation"@) {
        Some(s) => s,
        None => "active"@,
    }
}

pub open spec fn field_range(ls: Seq<Seq<char>>, line: int) -> TextRange {
    TextRange { start_line: line as usize, start_col: 0, end_line: line as usize, end_col: utf8_len(ls[line]) as usize }
}

pub open spec fn refactor(title: Seq<char>, edits: Seq<(TextRange, Seq<char>)>) -> ActionModel {
    ActionModel { title, kind: ActionKind::Refactor, diagnostic: None, edits }
}

pub open spec fn status_actions_upto(r: TextRange, current: Seq<char>, n: int) -> Seq<ActionModel>
    decreases n,
{
    if n <= 0 {
        seq![]
    } else {
        let all = seq![ChecklistStatus::NotApplicable, ChecklistStatus::Todo, ChecklistStatus::Wip, ChecklistStatus::Done];
        let name = checklist_status_name(all[n - 1]);
        let prev = status_actions_upto(r, current, n - 1);
        if name == current {
            prev
        } else {
            prev.push(refactor("ZK: Set checklist-status to "@ + name, seq![(r, "checklist-status = \""@ + name + "\""@)]))
        }
    }
}

/// Setting the relation, adding an empty `relation-target` below it where
/// the record has none.
pub open spec fn relation_action(ls: Seq<Seq<char>>, id: Seq<char>, line: int, new_relation: Seq<char>, title: Seq<char>) -> ActionModel {
    let first = seq![(field_range(ls, line), "relation = \""@ + new_relation + "\""@)];
    let at = TextRange { start_line: (line + 1) as usize, start_col: 0, end_line: (line + 1) as usize, end_col: 0 };
    refactor(
        title,
        if field_line_from(ls, 0, id, "relation-target"@) is None {
            first.push((at, "relation-target = [\"\"]\n"@))
        } else {
            first
        },
    )
}

pub open spec fn relation_actions(ls: Seq<Seq<char>>, id: Seq<char>, line: int, current: Seq<char>) -> Seq<ActionModel> {
    if current == "active"@ {
        seq![
            relation_action(ls, id, line, "archived"@, "ZK: Mark as archived"@),
            relation_action(ls, id, line, "legacy"@, "ZK: Mark as legacy"@),
        ]
    } else {
        let other = if current == "archived"@ {
            "legacy"@
        } else {
            "archived"@
        };
        seq![
            refactor("ZK: Mark as active"@, seq![(field_range(ls, line), "relation = \"active\""@)]),
            relation_action(ls, id, line, other, "ZK: Mark as "@ + other),
        ]
    }
}

/// The metadata actions for a selection of the metadata index from line
/// `start_line` to line `end_line`: inside one record, the other checklist
/// statuses and the other relations.
pub open spec fn metadata_actions(content: Seq<char>, start_line: int, end_line: int) -> Seq<ActionModel> {
    let ls = lines(content);
    match current_record(content, start_line) {
        None => seq![],
        Some(id) => {
            let end = match record_end_from(ls, 0, id, false, None) {
                Some(e) => e,
                None => start_line,
            };
            if end_line > end {
                seq![]
            } else {
                let sa = match field_line_from(ls, 0, id, "checklist-status"@) {
                    Some(l) => status_actions_upto(field_range(ls, l), current_status(content, id), 4),
                    None => seq![],
                };
                let ra = match field_line_from(ls, 0, id, "relation"@) {
                    Some(l) => relation_actions(ls, id, l, current_relation(content, id)),
                    None => seq![],
                };
                sa + ra
            }
        },
    }
}

fn quoted_record_header_exec(line: &Vec<char>) -> (r: Option<Vec<char>>)
    ensures
        r matches Some(id) ==> quoted_record_header(line@) == Some(id@),
        r is None ==> quoted_record_header(line@) is None,
{
    let n = line.len();
    let w = crate::text::ws_prefix_count(line, 0, n);
    proof {
        assert(line@.subrange(0, n as int) =~= line@);
        assert(line@.skip(w as int) =~= trim_start(line@));
        reveal_strlit("[notes.");
        assert(seq!['[', 'n', 'o', 't', 'e', 's', '.'] =~= "[notes."@);
    }
    let ghost t = trim_start(line@);
    if !crate::parser::starts_with_at(line, w, &['[', 'n', 'o', 't', 'e', 's', '.']) || n - w <= 7 {
        return None;
    }
    let a = w + 7;
    let q = line[a];
    assert(t.skip(7)[0] == q);
    if q != '"' && q != '\'' {
        return None;
    }
    let ghost rest = t.skip(7).skip(1);
    assert(rest =~= line@.skip(a + 1));
    proof {
        crate::reconcile::observe::lemma_first_index(rest, q, 0);
    }
    let mut j = a + 1;
    while j < n && line[j] != q
        invariant
            a + 1 <= j <= n,
            n == line.len(),
            rest =~= line@.skip(a + 1),
            forall|x: int| a + 1 <= x < j ==> line@[x] != q,
        decreases n - j,
    {
        j += 1;
    }
    if j == n {
        assert forall|x: int| 0 <= x < rest.len() implies rest[x] != q by {
            assert(rest[x] == line@[a + 1 + x]);
        }
        assert(crate::reconcile::observe::first_index(rest, q, 0) is None) by {
            if crate::reconcile::observe::first_index(rest, q, 0) is Some {
                let e = crate::reconcile::observe::first_index(rest, q, 0)->0;
                assert(rest[e] == q);
            }
        }
        return None;
    }
    assert(crate::reconcile::observe::first_index(rest, q, 0) == Some(j - a - 1)) by {
        assert forall|x: int| 0 <= x < j - a - 1 implies rest[x] != q by {
            assert(rest[x] == line@[a + 1 + x]);
        }
        assert(rest[j - a - 1] == line@[j as int]);
        match crate::reconcile::observe::first_index(rest, q, 0) {
            Some(e) => {
                if e < j - a - 1 {
                    assert(rest[e] != q);
                }
                if e > j - a - 1 {
                    assert(rest[j - a - 1] != q);
                }
            },
            None => {
                assert(rest[j - a - 1] == q);
            },
        }
    }
    let id = crate::parser::subvec(line, a + 1, j);
    assert(id@ =~= rest.take(j - a - 1));
    let ids = string_from_chars(&id);
    if is_note_id(ids.as_str()) {
        Some(id)
    } else {
        None
    }
}

fn bracket_line_exec(line: &Vec<char>) -> (r: bool)
    ensures
        r == bracket_line(line@),
{
    let n = line.len();
    let w = crate::text::ws_prefix_count(line, 0, n);
    let s = crate::text::ws_suffix_count(line, 0, n);
    proof {
        assert(line@.subrange(0, n as int) =~= line@);
        assert(line@.skip(w as int) =~= trim_start(line@));
    }
    let e = n - s;
    w < n && line[w] == '[' && e > 0 && line[e - 1] == ']'
}

/// The last line of record `id` in the metadata index: the lines from its
/// quoted header up to the next header.
pub fn metadata_record_end_line(content: &str, id: &str) -> (r: Option<usize>)
    ensures
        match r {
            Some(x) => record_end_from(lines(content@), 0, id@, false, None) == Some(x as int),
            None => record_end_from(lines(content@), 0, id@, false, None) is None,
        },
{
    let cs = chars_of(content);
    let ls = split_lines(&cs);
    let ghost lv = lines(content@);
    let idv = chars_of(id);
    let mut inside = false;
    let mut last: Option<usize> = None;
    let mut i: usize = 0;
    while i < ls.len()
        invariant
            i <= ls.len(),
            views(ls@) == lv,
            lv == lines(content@),
            idv@ == id@,
            record_end_from(lv, 0, id@, false, None) == record_end_from(
                lv,
                i as int,
                id@,
                inside,
                match last {
                    Some(x) => Some(x as int),
                    None => None,
                },
            ),
        decreases ls.len() - i,
    {
        let line = &ls[i];
        assert(line@ == lv[i as int]);
        assert(lv.len() == ls.len());
        let ghost lm = match last {
            Some(x) => Some(x as int),
            None => None::<int>,
        };
        match quoted_record_header_exec(line) {
            Some(cur) => {
                let same = crate::text::chars_eq(&cur, &idv);
                if inside && !same {
                    assert(record_end_from(lv, i as int, id@, inside, lm) == lm);
                    assert(record_end_from(lv, 0, id@, false, None) == lm);
                    return last;
                }
                inside = same;
            },
            None => {
                if inside && bracket_line_exec(line) {
                    assert(record_end_from(lv, i as int, id@, inside, lm) == lm);
                    assert(record_end_from(lv, 0, id@, false, None) == lm);
                    return last;
                }
            },
        }
        if inside {
            last = Some(i);
        }
        i += 1;
    }
    last
}

pub(crate) fn entry_lookup<'a>(t: &'a Vec<(String, TomlValue)>, key: &str) -> (r: Option<&'a TomlValue>)
    ensures
        match r {
            Some(v) => entry_value(entry_models(t@), key@, 0) == Some(v@),
            None => entry_value(entry_models(t@), key@, 0) is None,
        },
{
    let ghost tm = entry_models(t@);
    proof {
        lemma_entry_models(t@);
    }
    let mut k: usize = 0;
    while k < t.len()
        invariant
            k <= t.len(),
            tm == entry_models(t@),
            tm.len() == t.len(),
            forall|i: int| 0 <= i < t.len() ==> #[trigger] tm[i] == (t@[i].0@, crate::toml_value::toml_model(t@[i].1)),
            entry_value(tm, key@, 0) == entry_value(tm, key@, k as int),
        decreases t.len() - k,
    {
        if crate::text::str_eq(t[k].0.as_str(), key) {
            return Some(&t[k].1);
        }
        k += 1;
    }
    None
}

fn record_str_exec(doc: &Option<Vec<(String, TomlValue)>>, id: &str, key: &str, Ghost(content): Ghost<Seq<char>>) -> (r: Option<String>)
    requires
        match doc {
            Some(d) => toml_document(content) == Some(entry_models(d@)),
            None => toml_document(content) is None,
        },
    ensures
        match r {
            Some(s) => record_str(content, id@, key@) == Some(s@),
            None => record_str(content, id@, key@) is None,
        },
{
    match doc {
        None => None,
        Some(d) => match entry_lookup(d, "notes") {
            Some(TomlValue::Table(notes)) => match entry_lookup(notes, id) {
                Some(TomlValue::Table(rec)) => match entry_lookup(rec, key) {
                    Some(TomlValue::String(s)) => Some(s.clone()),
                    _ => None,
                },
                _ => None,
            },
            _ => None,
        },
    }
}

fn line_range_of(line: usize, end_col: usize) -> (r: TextRange)
    ensures
        r == (TextRange { start_line: line, start_col: 0, end_line: line, end_col }),
{
    TextRange { start_line: line, start_col: 0, end_line: line, end_col }
}

fn relation_action_exec(content: &str, id: &str, line: usize, end_col: usize, new_relation: &str, title: String) -> (r: ZkAction)
    requires
        line < usize::MAX,
    ensures
        r@ == refactor(
            title@,
            if field_line_from(lines(content@), 0, id@, "relation-target"@) is None {
                seq![(line_range_of_spec(line, end_col), "relation = \""@ + new_relation@ + "\""@)].push(
                    (TextRange { start_line: (line + 1) as usize, start_col: 0, end_line: (line + 1) as usize, end_col: 0 }, "relation-target = [\"\"]\n"@),
                )
            } else {
                seq![(line_range_of_spec(line, end_col), "relation = \""@ + new_relation@ + "\""@)]
            },
        ),
{
    let text = concat(concat("relation = \"", new_relation).as_str(), "\"");
    let mut edits = vec![LineEdit { range: line_range_of(line, end_col), new_text: text }];
    assert(edits@.map_values(|e: LineEdit| (e.range, e.new_text@)) =~= seq![(line_range_of_spec(line, end_col), "relation = \""@ + new_relation@ + "\""@)]);
    if find_field_line_range(content, id, "relation-target").is_none() {
        let ghost before = edits@;
        let at = TextRange { start_line: line + 1, start_col: 0, end_line: line + 1, end_col: 0 };
        edits.push(LineEdit { range: at, new_text: "relation-target = [\"\"]\n".to_owned() });
        assert(edits@.map_values(|e: LineEdit| (e.range, e.new_text@)) =~= before.map_values(|e: LineEdit| (e.range, e.new_text@)).push(
            (at, "relation-target = [\"\"]\n"@),
        ));
    }
    ZkAction { title, kind: ActionKind::Refactor, diagnostic: None, edits }
}

pub open spec fn line_range_of_spec(line: usize, end_col: usize) -> TextRange {
    TextRange { start_line: line, start_col: 0, end_line: line, end_col }
}

/// The metadata actions for a selection of the metadata index
/// (`metadata_actions`).
pub fn get_metadata_actions(content: &str, start_line: usize, end_line: usize) -> (r: Vec<ZkAction>)
    ensures
        action_models(r@) == metadata_actions(content@, start_line as int, end_line as int),
{
    let mut out: Vec<ZkAction> = Vec::new();
    assert(action_models(out@) =~= Seq::<ActionModel>::empty());
    let record_id = match current_record_id(content, start_line) {
        Some(id) => id,
        None => return out,
    };
    let cs = chars_of(content);
    let ls = split_lines(&cs);
    let ghost lv = lines(content@);
    let end = match metadata_record_end_line(content, record_id.as_str()) {
        Some(e) => e,
        None => start_line,
    };
    if end_line > end {
        return out;
    }
    let doc = parse_toml_document(content);
    match find_field_line_range(content, record_id.as_str(), "checklist-status") {
        Some(status_line) => {
            let current: &str = match record_str_exec(&doc, record_id.as_str(), "checklist-status", Ghost(content@)) {
                Some(s) => match ChecklistStatus::from_str(s.as_str()) {
                    Some(st) => st.as_str(),
                    None => "none",
                },
                None => "none",
            };
            assert(current@ == current_status(content@, record_id@));
            let r = line_range_of(status_line.line, status_line.end_col);
            assert(r == field_range(lv, status_line.line as int));
            let all = ChecklistStatus::all();
            let mut k: usize = 0;
            while k < 4
                invariant
                    k <= 4,
                    all@ == seq![ChecklistStatus::NotApplicable, ChecklistStatus::Todo, ChecklistStatus::Wip, ChecklistStatus::Done],
                    action_models(out@) == status_actions_upto(r, current@, k as int),
                decreases 4 - k,
            {
                let name = all[k].as_str();
                if !crate::text::str_eq(name, current) {
                    let title = concat("ZK: Set checklist-status to ", name);
                    let text = concat(concat("checklist-status = \"", name).as_str(), "\"");
                    push_action(&mut out, ZkAction { title, kind: ActionKind::Refactor, diagnostic: None, edits: one_edit(r, text) });
                }
                k += 1;
            }
        },
        None => {},
    }
    let ghost sa = action_models(out@);
    match find_field_line_range(content, record_id.as_str(), "relation") {
        Some(rl) => {
            let current = match record_str_exec(&doc, record_id.as_str(), "relation", Ghost(content@)) {
                Some(s) => s,
                None => "active".to_owned(),
            };
            assert(current@ == current_relation(content@, record_id@));
            assert(rl.line < ls.len());
            let r = line_range_of(rl.line, rl.end_col);
            if crate::text::str_eq(current.as_str(), "active") {
                push_action(&mut out, relation_action_exec(content, record_id.as_str(), rl.line, rl.end_col, "archived", "ZK: Mark as archived".to_owned()));
                push_action(&mut out, relation_action_exec(content, record_id.as_str(), rl.line, rl.end_col, "legacy", "ZK: Mark as legacy".to_owned()));
            } else {
                push_action(&mut out, ZkAction { title: "ZK: Mark as active".to_owned(), kind: ActionKind::Refactor, diagnostic: None, edits: one_edit(r, "relation = \"active\"".to_owned()) });
                let other = if crate::text::str_eq(current.as_str(), "archived") {
                    "legacy"
                } else {
                    "archived"
                };
                push_action(&mut out, relation_action_exec(content, record_id.as_str(), rl.line, rl.end_col, other, concat("ZK: Mark as ", other)));
            }
            assert(action_models(out@) =~= sa + relation_actions(lv, record_id@, rl.line as int, current@));
        },
        None => {
            assert(action_models(out@) =~= sa + Seq::<ActionModel>::empty());
        },
    }
    out
}

} // verus!
