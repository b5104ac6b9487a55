//! The workspace snapshot the Reconcile DSL observes: each note's checklist
//! items with their indent tree and `@ID` targets, and its metadata fields.
//!
//! A note's metadata fields are read from the note's inline ```` ```toml ````
//! block: `key = value` lines, where a value is a double-quoted string, a
//! boolean, an integer or an array of double-quoted strings, and a
//! `[table]` line prefixes the following keys with `table.`.
use vstd::prelude::*;
use crate::parser::{checklist_items, parse_checklist_items, starts_with, ItemModel};
use crate::reconcile::parser::{all_digits, digits_value, int_atom};
use crate::reconcile::types::{status_from_name, CheckboxId, Status, Value, ValueModel};
use crate::text::{chars_of, lines, split_lines, string_from_chars, string_from_range, trim, trim_range, trim_start, views};

verus! {

// ---------------------------------------------------------------------------
// Inline metadata
// ---------------------------------------------------------------------------

/// The index of the first `c` in `s` at or after `k`.
pub open spec fn first_index(s: Seq<char>, c: char, k: int) -> Option<int>
    decreases s.len() - k,
{
    if k < 0 || k >= s.len() {
        None
    } else if s[k] == c {
        Some(k)
    } else {
        first_index(s, c, k + 1)
    }
}

pub proof fn lemma_first_index(s: Seq<char>, c: char, k: int)
    requires
        0 <= k,
    ensures
        first_index(s, c, k) matches Some(i) ==> k <= i < s.len() && s[i] == c && forall|j: int|
            k <= j < i ==> s[j] != c,
        first_index(s, c, k) is None ==> forall|j: int| k <= j < s.len() ==> s[j] != c,
    decreases s.len() - k,
{
    if k < s.len() && s[k] != c {
        lemma_first_index(s, c, k + 1);
    }
}

/// The body of a double-quoted string.
pub open spec fn quoted(s: Seq<char>) -> Option<Seq<char>> {
    if s.len() >= 2 && s[0] == '"' && s.last() == '"' {
        Some(s.subrange(1, s.len() - 1))
    } else {
        None
    }
}

/// The comma-separated double-quoted strings of an array body; an empty
/// last item (a trailing comma) is allowed.
pub open spec fn string_items(s: Seq<char>) -> Option<Seq<ValueModel>>
    decreases s.len(),
{
    match first_index(s, ',', 0) {
        None => if trim(s).len() == 0 {
            Some(seq![])
        } else {
            match quoted(trim(s)) {
                Some(x) => Some(seq![ValueModel::Str(x)]),
                None => None,
            }
        },
        Some(q) => match quoted(trim(s.take(q))) {
            None => None,
            Some(x) => {
                proof {
                    lemma_first_index(s, ',', 0);
                }
                match string_items(s.skip(q + 1)) {
                    Some(rest) => Some(seq![ValueModel::Str(x)] + rest),
                    None => None,
                }
            },
        },
    }
}

/// The value of a `key = value` line's (trimmed) value text.
pub open spec fn toml_value(key: Seq<char>, v: Seq<char>) -> Option<ValueModel> {
    if v.len() >= 2 && v[0] == '"' && v.last() == '"' {
        let s = v.subrange(1, v.len() - 1);
        if key == "checklist-status"@ && status_from_name(s) is Some {
            Some(ValueModel::Status(status_from_name(s)->0))
        } else {
            Some(ValueModel::Str(s))
        }
    } else if v == "true"@ {
        Some(ValueModel::Bool(true))
    } else if v == "false"@ {
        Some(ValueModel::Bool(false))
    } else if v.len() >= 2 && v[0] == '[' && v.last() == ']' {
        match string_items(v.subrange(1, v.len() - 1)) {
            Some(items) => Some(ValueModel::List(items)),
            None => None,
        }
    } else {
        match int_atom(v) {
            Some(n) => if i64::MIN <= n <= i64::MAX {
                Some(ValueModel::Int(n as i64))
            } else {
                None
            },
            None => None,
        }
    }
}

/// A `[table]` line.
pub open spec fn is_table_line(t: Seq<char>) -> bool {
    t.len() >= 2 && t[0] == '[' && t.last() == ']'
}

/// The fields of lines `lo..n`, and the key prefix in force after them.
pub open spec fn fields_upto(ls: Seq<Seq<char>>, lo: int, n: int) -> (Seq<(Seq<char>, ValueModel)>, Seq<char>)
    decreases n - lo,
{
    if n <= lo {
        (seq![], seq![])
    } else {
        let (fs, prefix) = fields_upto(ls, lo, n - 1);
        let t = trim(ls[n - 1]);
        if is_table_line(t) {
            (fs, trim(t.subrange(1, t.len() - 1)) + "."@)
        } else {
            match first_index(t, '=', 0) {
                Some(q) => {
                    let key = prefix + trim(t.take(q));
                    match toml_value(key, trim(t.skip(q + 1))) {
                        Some(v) => (fs.push((key, v)), prefix),
                        None => (fs, prefix),
                    }
                },
                None => (fs, prefix),
            }
        }
    }
}

/// The first line at or after `i` that opens a ```` ```toml ```` block.
pub open spec fn toml_open_from(ls: Seq<Seq<char>>, i: int) -> Option<int>
    decreases ls.len() - i,
{
    if i < 0 || i >= ls.len() {
        None
    } else if trim(ls[i]) == "```toml"@ {
        Some(i)
    } else {
        toml_open_from(ls, i + 1)
    }
}

/// The first fence line at or after `j`, or the end.
pub open spec fn block_end(ls: Seq<Seq<char>>, j: int) -> int
    decreases ls.len() - j,
{
    if j < 0 || j >= ls.len() {
        ls.len() as int
    } else if starts_with(trim_start(ls[j]), "```"@) {
        j
    } else {
        block_end(ls, j + 1)
    }
}

/// The fields of a note's first inline ```` ```toml ```` block.
pub open spec fn inline_fields(content: Seq<char>) -> Seq<(Seq<char>, ValueModel)> {
    let ls = lines(content);
    match toml_open_from(ls, 0) {
        None => seq![],
        Some(i) => fields_upto(ls, i + 1, block_end(ls, i + 1)).0,
    }
}


pub open spec fn value_opt(r: Option<Value>) -> Option<ValueModel> {
    match r {
        Some(v) => Some(v@),
        None => None,
    }
}

pub open spec fn values_opt(r: Option<Vec<Value>>) -> Option<Seq<ValueModel>> {
    match r {
        Some(v) => Some(crate::reconcile::types::value_models(v@)),
        None => None,
    }
}

pub open spec fn field_models(fs: Seq<(String, Value)>) -> Seq<(Seq<char>, ValueModel)> {
    fs.map_values(|f: (String, Value)| (f.0@, f.1@))
}

fn first_index_exec(s: &Vec<char>, c: char) -> (r: Option<usize>)
    ensures
        r matches Some(i) ==> first_index(s@, c, 0) == Some(i as int) && i < s.len(),
        r is None ==> first_index(s@, c, 0) is None,
{
    let mut k: usize = 0;
    while k < s.len()
        invariant
            k <= s.len(),
            first_index(s@, c, 0) == first_index(s@, c, k as int),
        decreases s.len() - k,
    {
        if s[k] == c {
            return Some(k);
        }
        k += 1;
    }
    None
}

fn trimmed(s: &Vec<char>) -> (r: Vec<char>)
    ensures
        r@ == trim(s@),
{
    let (a, b) = trim_range(s, 0, s.len());
    assert(s@.subrange(0, s.len() as int) =~= s@);
    crate::parser::subvec(s, a, b)
}

fn quoted_exec(s: &Vec<char>) -> (r: Option<Vec<char>>)
    ensures
        r matches Some(x) ==> quoted(s@) == Some(x@),
        r is None ==> quoted(s@) is None,
{
    if s.len() >= 2 && s[0] == '"' && s[s.len() - 1] == '"' {
        Some(crate::parser::subvec(s, 1, s.len() - 1))
    } else {
        None
    }
}

fn string_items_exec(s: &Vec<char>) -> (r: Option<Vec<Value>>)
    ensures
        values_opt(r) == string_items(s@),
    decreases s.len(),
{
    match first_index_exec(s, ',') {
        None => {
            let t = trimmed(s);
            if t.len() == 0 {
                let out: Vec<Value> = Vec::new();
                assert(crate::reconcile::types::value_models(out@) =~= Seq::<ValueModel>::empty());
                return Some(out);
            }
            match quoted_exec(&t) {
                Some(x) => {
                    let mut out: Vec<Value> = Vec::new();
                    out.push(Value::String(string_from_chars(&x)));
                    proof {
                        crate::reconcile::types::lemma_value_models(out@);
                        assert(crate::reconcile::types::value_models(out@) =~= seq![ValueModel::Str(x@)]);
                    }
                    Some(out)
                },
                None => None,
            }
        },
        Some(q) => {
            let head = crate::parser::subvec(s, 0, q);
            assert(head@ =~= s@.take(q as int));
            let t = trimmed(&head);
            match quoted_exec(&t) {
                None => None,
                Some(x) => {
                    proof {
                        lemma_first_index(s@, ',', 0);
                    }
                    let rest_chars = crate::parser::subvec(s, q + 1, s.len());
                    assert(rest_chars@ =~= s@.skip(q + 1));
                    match string_items_exec(&rest_chars) {
                        None => None,
                        Some(rest) => {
                            let mut out: Vec<Value> = Vec::new();
                            out.push(Value::String(string_from_chars(&x)));
                            let mut rest = rest;
                            let ghost rv = rest@;
                            out.append(&mut rest);
                            proof {
                                crate::reconcile::types::lemma_value_models(out@);
                                crate::reconcile::types::lemma_value_models(rv);
                                assert(crate::reconcile::types::value_models(out@) =~= seq![ValueModel::Str(x@)]
                                    + crate::reconcile::types::value_models(rv));
                            }
                            Some(out)
                        },
                    }
                },
            }
        },
    }
}

/// The `i64` an atom spells, if any.
fn int_value(v: &Vec<char>) -> (r: Option<i64>)
    ensures
        r matches Some(n) ==> int_atom(v@) == Some(n as int),
        r is None ==> (int_atom(v@) matches Some(n) ==> !(i64::MIN <= n <= i64::MAX)),
{
    let neg = v.len() > 0 && v[0] == '-' && crate::reconcile::parser::all_digits_from(v, 1);
    let pos = !neg && crate::reconcile::parser::all_digits_from(v, 0);
    assert(v@.skip(0) =~= v@);
    if !neg && !pos {
        return None;
    }
    let from: usize = if neg {
        1
    } else {
        0
    };
    proof {
        assert forall|j: int| from <= j < v.len() implies crate::text::is_ascii_digit(#[trigger] v@[j]) by {
            assert(v@[j] == v@.skip(from as int)[j - from]);
        }
    }
    match crate::reconcile::parser::digits_capped(v, from) {
        None => None,
        Some(n) => {
            if neg {
                if n <= 9_223_372_036_854_775_808u128 {
                    if n == 9_223_372_036_854_775_808u128 {
                        Some(i64::MIN)
                    } else {
                        Some(-(n as i64))
                    }
                } else {
                    None
                }
            } else {
                if n <= 9_223_372_036_854_775_807u128 {
                    Some(n as i64)
                } else {
                    None
                }
            }
        },
    }
}

fn toml_value_exec(key: &Vec<char>, v: &Vec<char>) -> (r: Option<Value>)
    ensures
        value_opt(r) == toml_value(key@, v@),
{
    if v.len() >= 2 && v[0] == '"' && v[v.len() - 1] == '"' {
        let body = crate::parser::subvec(v, 1, v.len() - 1);
        let bs = string_from_chars(&body);
        let kc = string_from_chars(key);
        if crate::text::str_eq(kc.as_str(), "checklist-status") {
            if let Some(st) = Status::from_str(bs.as_str()) {
                return Some(Value::Status(st));
            }
        }
        return Some(Value::String(bs));
    }
    let vs = string_from_chars(v);
    if crate::text::str_eq(vs.as_str(), "true") {
        return Some(Value::Bool(true));
    }
    if crate::text::str_eq(vs.as_str(), "false") {
        return Some(Value::Bool(false));
    }
    if v.len() >= 2 && v[0] == '[' && v[v.len() - 1] == ']' {
        let inner = crate::parser::subvec(v, 1, v.len() - 1);
        return match string_items_exec(&inner) {
            Some(items) => {
                proof {
                    crate::reconcile::types::lemma_value_models(items@);
                }
                Some(Value::List(items))
            },
            None => None,
        };
    }
    match int_value(v) {
        Some(n) => Some(Value::Int(n)),
        None => None,
    }
}

pub(crate) fn find_toml_open(ls: &Vec<Vec<char>>) -> (r: Option<usize>)
    ensures
        r matches Some(i) ==> toml_open_from(views(ls@), 0) == Some(i as int) && i < ls.len(),
        r is None ==> toml_open_from(views(ls@), 0) is None,
{
    let ghost lv = views(ls@);
    let mut i: usize = 0;
    while i < ls.len()
        invariant
            i <= ls.len(),
            lv == views(ls@),
            toml_open_from(lv, 0) == toml_open_from(lv, i as int),
        decreases ls.len() - i,
    {
        assert(lv[i as int] == ls@[i as int]@);
        let t = trimmed(&ls[i]);
        let ts = string_from_chars(&t);
        if crate::text::str_eq(ts.as_str(), "```toml") {
            return Some(i);
        }
        i += 1;
    }
    None
}

fn find_block_end(ls: &Vec<Vec<char>>, lo: usize) -> (r: usize)
    requires
        lo <= ls.len(),
    ensures
        r == block_end(views(ls@), lo as int),
        lo <= r <= ls.len(),
{
    let ghost lv = views(ls@);
    let mut end = lo;
    while end < ls.len()
        invariant
            lo <= end <= ls.len(),
            lv == views(ls@),
            block_end(lv, lo as int) == block_end(lv, end as int),
        decreases ls.len() - end,
    {
        assert(lv[end as int] == ls@[end as int]@);
        let w = crate::text::ws_prefix_count(&ls[end], 0, ls[end].len());
        proof {
            reveal_strlit("```");
            assert(seq!['`', '`', '`'] =~= "```"@);
            assert(ls@[end as int]@.subrange(0, ls@[end as int]@.len() as int) =~= ls@[end as int]@);
            assert(ls@[end as int]@.skip(w as int) =~= trim_start(lv[end as int]));
        }
        if crate::parser::starts_with_at(&ls[end], w, &['`', '`', '`']) {
            return end;
        }
        end += 1;
    }
    end
}

/// The fields of a note's first inline ```` ```toml ```` block.
pub fn inline_metadata_fields(content: &str) -> (r: Vec<(String, Value)>)
    ensures
        field_models(r@) == inline_fields(content@),
{
    let cs = chars_of(content);
    let ls = split_lines(&cs);
    let ghost lv = views(ls@);
    assert(lv == lines(content@));
    let mut fs: Vec<(String, Value)> = Vec::new();
    let i = match find_toml_open(&ls) {
        Some(i) => i,
        None => {
            assert(field_models(fs@) =~= Seq::<(Seq<char>, ValueModel)>::empty());
            return fs;
        },
    };
    let lo = i + 1;
    let end = find_block_end(&ls, lo);
    let mut prefix: Vec<char> = Vec::new();
    let mut k = lo;
    assert(field_models(fs@) =~= Seq::<(Seq<char>, ValueModel)>::empty());
    while k < end
        invariant
            lo <= k <= end <= ls.len(),
            lv == views(ls@),
            fields_upto(lv, lo as int, k as int) == (field_models(fs@), prefix@),
        decreases end - k,
    {
        assert(lv[k as int] == ls@[k as int]@);
        let t = trimmed(&ls[k]);
        if t.len() >= 2 && t[0] == '[' && t[t.len() - 1] == ']' {
            let inner = crate::parser::subvec(&t, 1, t.len() - 1);
            let mut np = trimmed(&inner);
            np.push('.');
            proof {
                reveal_strlit(".");
                assert(np@ =~= trim(t@.subrange(1, t@.len() - 1)) + "."@);
            }
            prefix = np;
        } else {
            match first_index_exec(&t, '=') {
                Some(q) => {
                    let kpart = crate::parser::subvec(&t, 0, q);
                    assert(kpart@ =~= t@.take(q as int));
                    let kt = trimmed(&kpart);
                    let mut key = prefix.clone();
                    let mut j: usize = 0;
                    while j < kt.len()
                        invariant
                            j <= kt.len(),
                            key@ == prefix@ + kt@.take(j as int),
                        decreases kt.len() - j,
                    {
                        key.push(kt[j]);
                        assert(kt@.take(j + 1) =~= kt@.take(j as int).push(kt@[j as int]));
                        j += 1;
                    }
                    assert(kt@.take(kt.len() as int) =~= kt@);
                    let vpart = crate::parser::subvec(&t, q + 1, t.len());
                    assert(vpart@ =~= t@.skip(q + 1));
                    let vt = trimmed(&vpart);
                    match toml_value_exec(&key, &vt) {
                        Some(v) => {
                            let ghost before = field_models(fs@);
                            let ks = string_from_chars(&key);
                            let ghost vm = v@;
                            fs.push((ks, v));
                            assert(field_models(fs@) =~= before.push((key@, vm)));
                        },
                        None => {},
                    }
                },
                None => {},
            }
        }
        k += 1;
    }
    fs
}


// ---------------------------------------------------------------------------
// Snapshot
// ---------------------------------------------------------------------------

/// A checklist item of a note.
#[derive(Debug)]
pub struct CheckboxSnapshot {
    /// 0-based line index within the note.
    pub line_idx: usize,
    pub checked: bool,
    /// Byte width of the item's indentation.
    pub indent: usize,
    /// The `@ID` targets of a ref item (empty for a local item).
    pub targets: Vec<String>,
}

/// What the snapshot holds of one note.
#[derive(Debug)]
pub struct NoteSnapshot {
    pub id: String,
    pub file_path: String,
    /// Metadata fields by dotted path.
    pub fields: Vec<(String, Value)>,
    /// Checklist items in source order.
    pub checkboxes: Vec<CheckboxSnapshot>,
}

/// The notes of the workspace, and defaults for fields a note lacks.
#[derive(Debug)]
pub struct WorkspaceSnapshot {
    pub notes: Vec<NoteSnapshot>,
    pub metadata_defaults: Vec<(String, Value)>,
}

/// One note file as read from disk.
pub struct NoteSource {
    pub id: String,
    pub file_path: String,
    pub content: String,
}

pub struct CheckboxModel {
    pub line_idx: usize,
    pub checked: bool,
    pub indent: usize,
    pub targets: Seq<Seq<char>>,
}

pub struct NoteModel {
    pub id: Seq<char>,
    pub path: Seq<char>,
    pub fields: Seq<(Seq<char>, ValueModel)>,
    pub checkboxes: Seq<CheckboxModel>,
}

pub struct SnapshotModel {
    pub notes: Seq<NoteModel>,
    pub defaults: Seq<(Seq<char>, ValueModel)>,
}

impl View for CheckboxSnapshot {
    type V = CheckboxModel;

    open spec fn view(&self) -> CheckboxModel {
        CheckboxModel {
            line_idx: self.line_idx,
            checked: self.checked,
            indent: self.indent,
            targets: crate::reconcile::ast::names(self.targets@),
        }
    }
}

impl View for NoteSnapshot {
    type V = NoteModel;

    open spec fn view(&self) -> NoteModel {
        NoteModel {
            id: self.id@,
            path: self.file_path@,
            fields: field_models(self.fields@),
            checkboxes: self.checkboxes@.map_values(|c: CheckboxSnapshot| c@),
        }
    }
}

impl View for WorkspaceSnapshot {
    type V = SnapshotModel;

    open spec fn view(&self) -> SnapshotModel {
        SnapshotModel {
            notes: self.notes@.map_values(|n: NoteSnapshot| n@),
            defaults: field_models(self.metadata_defaults@),
        }
    }
}

/// The first note with ID `id` at or after `k`.
pub open spec fn note_from(notes: Seq<NoteModel>, id: Seq<char>, k: int) -> Option<int>
    decreases notes.len() - k,
{
    if k < 0 || k >= notes.len() {
        None
    } else if notes[k].id == id {
        Some(k)
    } else {
        note_from(notes, id, k + 1)
    }
}

pub open spec fn note_at(s: SnapshotModel, id: Seq<char>) -> Option<int> {
    note_from(s.notes, id, 0)
}

/// The first checklist item on line `line` at or after `k`.
pub open spec fn box_from(boxes: Seq<CheckboxModel>, line: usize, k: int) -> Option<int>
    decreases boxes.len() - k,
{
    if k < 0 || k >= boxes.len() {
        None
    } else if boxes[k].line_idx == line {
        Some(k)
    } else {
        box_from(boxes, line, k + 1)
    }
}

/// The note index and item index of a checkbox.
pub open spec fn box_at(s: SnapshotModel, id: Seq<char>, line: usize) -> Option<(int, int)> {
    match note_at(s, id) {
        None => None,
        Some(i) => match box_from(s.notes[i].checkboxes, line, 0) {
            None => None,
            Some(j) => Some((i, j)),
        },
    }
}

/// The raw state of a checkbox: `done` when checked, else `todo`.
pub open spec fn observed_checked(s: SnapshotModel, id: Seq<char>, line: usize) -> Option<Status> {
    match box_at(s, id, line) {
        None => None,
        Some((i, j)) => Some(if s.notes[i].checkboxes[j].checked { Status::Done } else { Status::Todo }),
    }
}

/// The nearest item before `j` (searching down from `k`) with a smaller
/// indent: the parent in the indent tree.
pub open spec fn parent_from(boxes: Seq<CheckboxModel>, j: int, k: int) -> Option<int>
    decreases k + 1,
{
    if k < 0 {
        None
    } else if boxes[k].indent < boxes[j].indent {
        Some(k)
    } else {
        parent_from(boxes, j, k - 1)
    }
}

pub open spec fn parent_index(boxes: Seq<CheckboxModel>, j: int) -> Option<int> {
    parent_from(boxes, j, j - 1)
}

/// The line of a checkbox's parent item, if it has one.
pub open spec fn parent_line(s: SnapshotModel, id: Seq<char>, line: usize) -> Option<usize> {
    match box_at(s, id, line) {
        None => None,
        Some((i, j)) => match parent_index(s.notes[i].checkboxes, j) {
            None => None,
            Some(p) => Some(s.notes[i].checkboxes[p].line_idx),
        },
    }
}

/// Lines of the items among the first `n` whose parent is item `j`.
pub open spec fn children_upto(boxes: Seq<CheckboxModel>, j: int, n: int) -> Seq<usize>
    decreases n,
{
    if n <= 0 {
        seq![]
    } else if parent_index(boxes, n - 1) == Some(j) {
        children_upto(boxes, j, n - 1).push(boxes[n - 1].line_idx)
    } else {
        children_upto(boxes, j, n - 1)
    }
}

/// Lines of a checkbox's direct children.
pub open spec fn children_lines(s: SnapshotModel, id: Seq<char>, line: usize) -> Seq<usize> {
    match box_at(s, id, line) {
        None => seq![],
        Some((i, j)) => children_upto(s.notes[i].checkboxes, j, s.notes[i].checkboxes.len() as int),
    }
}

/// The `@ID` targets of a checkbox.
pub open spec fn target_ids(s: SnapshotModel, id: Seq<char>, line: usize) -> Seq<Seq<char>> {
    match box_at(s, id, line) {
        None => seq![],
        Some((i, j)) => s.notes[i].checkboxes[j].targets,
    }
}

/// Lines of a note's checklist items.
pub open spec fn local_lines(s: SnapshotModel, id: Seq<char>) -> Seq<usize> {
    match note_at(s, id) {
        None => seq![],
        Some(i) => s.notes[i].checkboxes.map_values(|c: CheckboxModel| c.line_idx),
    }
}

/// Some checklist item of `n` targets `id`.
pub open spec fn refers_to(n: NoteModel, id: Seq<char>) -> bool {
    exists|k: int| 0 <= k < n.checkboxes.len() && #[trigger] n.checkboxes[k].targets.contains(id)
}

/// IDs of the first `n` notes that have an item targeting `id`.
pub open spec fn backlinks_upto(notes: Seq<NoteModel>, id: Seq<char>, n: int) -> Seq<Seq<char>>
    decreases n,
{
    if n <= 0 {
        seq![]
    } else if refers_to(notes[n - 1], id) {
        backlinks_upto(notes, id, n - 1).push(notes[n - 1].id)
    } else {
        backlinks_upto(notes, id, n - 1)
    }
}

/// IDs of the notes that have an item targeting `id`, in note order.
pub open spec fn backlink_ids(s: SnapshotModel, id: Seq<char>) -> Seq<Seq<char>> {
    backlinks_upto(s.notes, id, s.notes.len() as int)
}

/// The value of the first field named `key` at or after `k`.
pub open spec fn lookup_from(fs: Seq<(Seq<char>, ValueModel)>, key: Seq<char>, k: int) -> Option<ValueModel>
    decreases fs.len() - k,
{
    if k < 0 || k >= fs.len() {
        None
    } else if fs[k].0 == key {
        Some(fs[k].1)
    } else {
        lookup_from(fs, key, k + 1)
    }
}

/// The note exists and has the field or a default for it.
pub open spec fn has_field(s: SnapshotModel, id: Seq<char>, field: Seq<char>) -> bool {
    match note_at(s, id) {
        None => false,
        Some(i) => lookup_from(s.notes[i].fields, field, 0) is Some || lookup_from(s.defaults, field, 0) is Some,
    }
}

/// A note's field value, else the default, else the empty string.
pub open spec fn observed_meta(s: SnapshotModel, id: Seq<char>, field: Seq<char>) -> ValueModel {
    let own = match note_at(s, id) {
        None => None,
        Some(i) => lookup_from(s.notes[i].fields, field, 0),
    };
    match own {
        Some(v) => v,
        None => match lookup_from(s.defaults, field, 0) {
            Some(v) => v,
            None => ValueModel::Str(seq![]),
        },
    }
}


pub open spec fn box_model(it: ItemModel) -> CheckboxModel {
    CheckboxModel {
        line_idx: it.line_idx as usize,
        checked: it.checked,
        indent: it.indent as usize,
        targets: it.targets.map_values(|t: crate::parser::TargetModel| t.id),
    }
}

pub open spec fn note_model_of(id: Seq<char>, path: Seq<char>, content: Seq<char>) -> NoteModel {
    NoteModel {
        id,
        path,
        fields: inline_fields(content),
        checkboxes: checklist_items(content).map_values(|it: ItemModel| box_model(it)),
    }
}

/// The notes of the first `n` sources, skipping a source whose ID an earlier
/// one already has.
pub open spec fn sources_upto(srcs: Seq<NoteSource>, n: int) -> Seq<NoteModel>
    decreases n,
{
    if n <= 0 {
        seq![]
    } else {
        let prev = sources_upto(srcs, n - 1);
        let src = srcs[n - 1];
        if note_from(prev, src.id@, 0) is Some {
            prev
        } else {
            prev.push(note_model_of(src.id@, src.file_path@, src.content@))
        }
    }
}

/// Defaults of the core metadata fields.
pub open spec fn core_defaults() -> Seq<(Seq<char>, ValueModel)> {
    seq![
        ("schema-version"@, ValueModel::Int(1)),
        ("aliases"@, ValueModel::List(seq![])),
        ("abstract"@, ValueModel::Str(seq![])),
        ("keywords"@, ValueModel::List(seq![])),
        ("generated"@, ValueModel::Bool(true)),
        ("checklist-status"@, ValueModel::Status(Status::NotApplicable)),
        ("relation"@, ValueModel::Str("active"@)),
        ("relation-target"@, ValueModel::List(seq![])),
    ]
}

pub open spec fn snapshot_of(srcs: Seq<NoteSource>) -> SnapshotModel {
    SnapshotModel { notes: sources_upto(srcs, srcs.len() as int), defaults: core_defaults() }
}

/// All checkboxes of the first `n` notes, note by note.
pub open spec fn boxes_upto(notes: Seq<NoteModel>, n: int) -> Seq<(Seq<char>, usize)>
    decreases n,
{
    if n <= 0 {
        seq![]
    } else {
        boxes_upto(notes, n - 1) + notes[n - 1].checkboxes.map_values(
            |c: CheckboxModel| (notes[n - 1].id, c.line_idx),
        )
    }
}

pub open spec fn cid(c: CheckboxId) -> (Seq<char>, usize) {
    (c.note_id@, c.line_idx)
}

pub open spec fn cids(v: Seq<CheckboxId>) -> Seq<(Seq<char>, usize)> {
    v.map_values(|c: CheckboxId| cid(c))
}

fn find_note(notes: &Vec<NoteSnapshot>, id: &str) -> (r: Option<usize>)
    ensures
        r matches Some(i) ==> note_from(notes@.map_values(|n: NoteSnapshot| n@), id@, 0) == Some(i as int)
            && i < notes.len(),
        r is None ==> note_from(notes@.map_values(|n: NoteSnapshot| n@), id@, 0) is None,
{
    let ghost nm = notes@.map_values(|n: NoteSnapshot| n@);
    let mut k: usize = 0;
    while k < notes.len()
        invariant
            k <= notes.len(),
            nm == notes@.map_values(|n: NoteSnapshot| n@),
            note_from(nm, id@, 0) == note_from(nm, id@, k as int),
        decreases notes.len() - k,
    {
        assert(nm[k as int] == notes@[k as int]@);
        if crate::text::str_eq(notes[k].id.as_str(), id) {
            return Some(k);
        }
        k += 1;
    }
    None
}

fn find_box(boxes: &Vec<CheckboxSnapshot>, line: usize) -> (r: Option<usize>)
    ensures
        r matches Some(j) ==> box_from(boxes@.map_values(|c: CheckboxSnapshot| c@), line, 0) == Some(j as int)
            && j < boxes.len(),
        r is None ==> box_from(boxes@.map_values(|c: CheckboxSnapshot| c@), line, 0) is None,
{
    let ghost bm = boxes@.map_values(|c: CheckboxSnapshot| c@);
    let mut k: usize = 0;
    while k < boxes.len()
        invariant
            k <= boxes.len(),
            bm == boxes@.map_values(|c: CheckboxSnapshot| c@),
            box_from(bm, line, 0) == box_from(bm, line, k as int),
        decreases boxes.len() - k,
    {
        assert(bm[k as int] == boxes@[k as int]@);
        if boxes[k].line_idx == line {
            return Some(k);
        }
        k += 1;
    }
    None
}

pub(crate) fn lookup_field(fs: &Vec<(String, Value)>, key: &str) -> (r: Option<usize>)
    ensures
        r matches Some(k) ==> k < fs.len() && lookup_from(field_models(fs@), key@, 0) == Some(fs@[k as int].1@),
        r is None ==> lookup_from(field_models(fs@), key@, 0) is None,
{
    let ghost fm = field_models(fs@);
    let mut k: usize = 0;
    while k < fs.len()
        invariant
            k <= fs.len(),
            fm == field_models(fs@),
            lookup_from(fm, key@, 0) == lookup_from(fm, key@, k as int),
        decreases fs.len() - k,
    {
        assert(fm[k as int] == (fs@[k as int].0@, fs@[k as int].1@));
        if crate::text::str_eq(fs[k].0.as_str(), key) {
            return Some(k);
        }
        k += 1;
    }
    None
}

fn clone_names(v: &Vec<String>) -> (r: Vec<String>)
    ensures
        crate::reconcile::ast::names(r@) == crate::reconcile::ast::names(v@),
{
    let mut r: Vec<String> = Vec::new();
    let mut k: usize = 0;
    while k < v.len()
        invariant
            k <= v.len(),
            crate::reconcile::ast::names(r@) == crate::reconcile::ast::names(v@).take(k as int),
        decreases v.len() - k,
    {
        let ghost before = crate::reconcile::ast::names(r@);
        r.push(v[k].clone());
        assert(crate::reconcile::ast::names(r@) =~= before.push(v@[k as int]@));
        assert(crate::reconcile::ast::names(v@).take(k + 1) =~= crate::reconcile::ast::names(v@).take(k as int).push(
            v@[k as int]@,
        ));
        k += 1;
    }
    assert(crate::reconcile::ast::names(v@).take(v.len() as int) =~= crate::reconcile::ast::names(v@));
    r
}

fn parent_of_exec(boxes: &Vec<CheckboxSnapshot>, j: usize) -> (r: Option<usize>)
    requires
        j < boxes.len(),
    ensures
        r matches Some(p) ==> parent_index(boxes@.map_values(|c: CheckboxSnapshot| c@), j as int) == Some(p as int)
            && p < j,
        r is None ==> parent_index(boxes@.map_values(|c: CheckboxSnapshot| c@), j as int) is None,
{
    let ghost bm = boxes@.map_values(|c: CheckboxSnapshot| c@);
    let mut k = j;
    while k > 0
        invariant
            k <= j < boxes.len(),
            bm == boxes@.map_values(|c: CheckboxSnapshot| c@),
            parent_index(bm, j as int) == parent_from(bm, j as int, k - 1),
        decreases k,
    {
        assert(bm[k - 1] == boxes@[k - 1]@);
        assert(bm[j as int] == boxes@[j as int]@);
        if boxes[k - 1].indent < boxes[j].indent {
            return Some(k - 1);
        }
        k -= 1;
    }
    None
}

impl WorkspaceSnapshot {
    fn box_index(&self, id: &CheckboxId) -> (r: Option<(usize, usize)>)
        ensures
            r matches Some((i, j)) ==> box_at(self@, id.note_id@, id.line_idx) == Some((i as int, j as int))
                && i < self.notes.len() && j < self.notes@[i as int].checkboxes.len(),
            r is None ==> box_at(self@, id.note_id@, id.line_idx) is None,
    {
        match find_note(&self.notes, id.note_id.as_str()) {
            None => None,
            Some(i) => {
                assert(self@.notes[i as int] == self.notes@[i as int]@);
                match find_box(&self.notes[i].checkboxes, id.line_idx) {
                    None => None,
                    Some(j) => Some((i, j)),
                }
            },
        }
    }

    /// The raw state of a checkbox: `Done` when checked, else `Todo`;
    /// `None` for an unknown checkbox.
    pub fn observe_checked(&self, id: &CheckboxId) -> (r: Option<Status>)
        ensures
            r == observed_checked(self@, id.note_id@, id.line_idx),
    {
        match self.box_index(id) {
            None => None,
            Some((i, j)) => {
                assert(self@.notes[i as int] == self.notes@[i as int]@);
                assert(self@.notes[i as int].checkboxes[j as int] == self.notes@[i as int].checkboxes@[j as int]@);
                Some(
                    if self.notes[i].checkboxes[j].checked {
                        Status::Done
                    } else {
                        Status::Todo
                    },
                )
            },
        }
    }

    /// The parent of a checkbox in its note's indent tree.
    pub fn parent(&self, id: &CheckboxId) -> (r: Option<CheckboxId>)
        ensures
            r matches Some(p) ==> parent_line(self@, id.note_id@, id.line_idx) == Some(p.line_idx) && p.note_id@
                == id.note_id@,
            r is None ==> parent_line(self@, id.note_id@, id.line_idx) is None,
    {
        match self.box_index(id) {
            None => None,
            Some((i, j)) => {
                assert(self@.notes[i as int] == self.notes@[i as int]@);
                let boxes = &self.notes[i].checkboxes;
                let ghost bm = boxes@.map_values(|c: CheckboxSnapshot| c@);
                assert(self@.notes[i as int].checkboxes == bm);
                match parent_of_exec(boxes, j) {
                    Some(p) => {
                        assert(bm[p as int] == boxes@[p as int]@);
                        Some(CheckboxId { note_id: id.note_id.clone(), line_idx: boxes[p].line_idx })
                    },
                    None => None,
                }
            },
        }
    }

    /// The direct children of a checkbox, in source order.
    pub fn children(&self, id: &CheckboxId) -> (r: Vec<CheckboxId>)
        ensures
            r@.map_values(|c: CheckboxId| c.line_idx) == children_lines(self@, id.note_id@, id.line_idx),
            forall|k: int| 0 <= k < r.len() ==> #[trigger] r@[k].note_id@ == id.note_id@,
    {
        let mut out: Vec<CheckboxId> = Vec::new();
        assert(out@.map_values(|c: CheckboxId| c.line_idx) =~= Seq::<usize>::empty());
        match self.box_index(id) {
            None => out,
            Some((i, j)) => {
                assert(self@.notes[i as int] == self.notes@[i as int]@);
                let boxes = &self.notes[i].checkboxes;
                let ghost bm = boxes@.map_values(|c: CheckboxSnapshot| c@);
                assert(self@.notes[i as int].checkboxes == bm);
                let mut n: usize = 0;
                while n < boxes.len()
                    invariant
                        n <= boxes.len(),
                        j < boxes.len(),
                        bm == boxes@.map_values(|c: CheckboxSnapshot| c@),
                        out@.map_values(|c: CheckboxId| c.line_idx) == children_upto(bm, j as int, n as int),
                        forall|k: int| 0 <= k < out.len() ==> #[trigger] out@[k].note_id@ == id.note_id@,
                    decreases boxes.len() - n,
                {
                    let par = parent_of_exec(boxes, n);
                    assert(bm[n as int] == boxes@[n as int]@);
                    let ghost prev = children_upto(bm, j as int, n as int);
                    let ghost before = out@;
                    if par == Some(j) {
                        out.push(CheckboxId { note_id: id.note_id.clone(), line_idx: boxes[n].line_idx });
                        assert(children_upto(bm, j as int, n + 1) == prev.push(bm[n as int].line_idx));
                        assert(out@.map_values(|c: CheckboxId| c.line_idx) =~= before.map_values(
                            |c: CheckboxId| c.line_idx,
                        ).push(bm[n as int].line_idx));
                        assert forall|k: int| 0 <= k < out.len() implies #[trigger] out@[k].note_id@ == id.note_id@ by {
                            if k < before.len() {
                                assert(out@[k] == before[k]);
                            }
                        }
                    } else {
                        assert(children_upto(bm, j as int, n + 1) == prev);
                    }
                    n += 1;
                }
                out
            },
        }
    }

    /// The `@ID` targets of a checkbox.
    pub fn targets(&self, id: &CheckboxId) -> (r: Vec<String>)
        ensures
            crate::reconcile::ast::names(r@) == target_ids(self@, id.note_id@, id.line_idx),
    {
        match self.box_index(id) {
            None => {
                let r: Vec<String> = Vec::new();
                assert(crate::reconcile::ast::names(r@) =~= Seq::<Seq<char>>::empty());
                r
            },
            Some((i, j)) => {
                assert(self@.notes[i as int] == self.notes@[i as int]@);
                assert(self@.notes[i as int].checkboxes[j as int] == self.notes@[i as int].checkboxes@[j as int]@);
                clone_names(&self.notes[i].checkboxes[j].targets)
            },
        }
    }

    /// The checklist items of a note, in source order.
    pub fn local_checkboxes(&self, note_id: &str) -> (r: Vec<CheckboxId>)
        ensures
            r@.map_values(|c: CheckboxId| c.line_idx) == local_lines(self@, note_id@),
            forall|k: int| 0 <= k < r.len() ==> #[trigger] r@[k].note_id@ == note_id@,
    {
        let mut out: Vec<CheckboxId> = Vec::new();
        match find_note(&self.notes, note_id) {
            None => {
                assert(out@.map_values(|c: CheckboxId| c.line_idx) =~= Seq::<usize>::empty());
                out
            },
            Some(i) => {
                assert(self@.notes[i as int] == self.notes@[i as int]@);
                let boxes = &self.notes[i].checkboxes;
                let ghost lines_all = self@.notes[i as int].checkboxes.map_values(|c: CheckboxModel| c.line_idx);
                let mut k: usize = 0;
                while k < boxes.len()
                    invariant
                        k <= boxes.len(),
                        lines_all == boxes@.map_values(|c: CheckboxSnapshot| c@).map_values(
                            |c: CheckboxModel| c.line_idx,
                        ),
                        out@.map_values(|c: CheckboxId| c.line_idx) == lines_all.take(k as int),
                        forall|q: int| 0 <= q < out.len() ==> #[trigger] out@[q].note_id@ == note_id@,
                    decreases boxes.len() - k,
                {
                    let ghost before = out@;
                    out.push(CheckboxId { note_id: note_id.to_owned(), line_idx: boxes[k].line_idx });
                    assert(out@.map_values(|c: CheckboxId| c.line_idx) =~= before.map_values(
                        |c: CheckboxId| c.line_idx,
                    ).push(boxes@[k as int].line_idx));
                    assert(lines_all.take(k + 1) =~= lines_all.take(k as int).push(lines_all[k as int]));
                    assert forall|q: int| 0 <= q < out.len() implies #[trigger] out@[q].note_id@ == note_id@ by {
                        if q < before.len() {
                            assert(out@[q] == before[q]);
                        }
                    }
                    k += 1;
                }
                assert(lines_all.take(boxes.len() as int) =~= lines_all);
                out
            },
        }
    }

    /// IDs of the notes with a checklist item that targets `note_id`.
    pub fn backlinks(&self, note_id: &str) -> (r: Vec<String>)
        ensures
            crate::reconcile::ast::names(r@) == backlink_ids(self@, note_id@),
    {
        let ghost nm = self@.notes;
        let mut out: Vec<String> = Vec::new();
        let mut n: usize = 0;
        assert(crate::reconcile::ast::names(out@) =~= Seq::<Seq<char>>::empty());
        while n < self.notes.len()
            invariant
                n <= self.notes.len(),
                nm == self@.notes,
                nm.len() == self.notes.len(),
                crate::reconcile::ast::names(out@) == backlinks_upto(nm, note_id@, n as int),
            decreases self.notes.len() - n,
        {
            assert(nm[n as int] == self.notes@[n as int]@);
            let boxes = &self.notes[n].checkboxes;
            let ghost bm = boxes@.map_values(|c: CheckboxSnapshot| c@);
            let mut found = false;
            let mut k: usize = 0;
            while k < boxes.len()
                invariant
                    k <= boxes.len(),
                    bm == boxes@.map_values(|c: CheckboxSnapshot| c@),
                    found == exists|q: int| 0 <= q < k && #[trigger] bm[q].targets.contains(note_id@),
                decreases boxes.len() - k,
            {
                assert(bm[k as int] == boxes@[k as int]@);
                let ts = &boxes[k].targets;
                let mut t: usize = 0;
                let mut hit = false;
                while t < ts.len()
                    invariant
                        t <= ts.len(),
                        hit == exists|q: int| 0 <= q < t && #[trigger] ts@[q]@ == note_id@,
                    decreases ts.len() - t,
                {
                    if crate::text::str_eq(ts[t].as_str(), note_id) {
                        hit = true;
                    }
                    t += 1;
                }
                proof {
                    let tn = crate::reconcile::ast::names(ts@);
                    assert(bm[k as int].targets == tn);
                    if hit {
                        let q = choose|q: int| 0 <= q < ts.len() && #[trigger] ts@[q]@ == note_id@;
                        assert(tn[q] == note_id@);
                        assert(tn.contains(note_id@));
                    } else {
                        assert forall|q: int| 0 <= q < tn.len() implies tn[q] != note_id@ by {
                            assert(tn[q] == ts@[q]@);
                        }
                    }
                }
                if hit {
                    found = true;
                }
                k += 1;
            }
            proof {
                assert(nm[n as int].checkboxes == bm);
                if found {
                    let q = choose|q: int| 0 <= q < boxes.len() && #[trigger] bm[q].targets.contains(note_id@);
                    assert(nm[n as int].checkboxes[q].targets.contains(note_id@));
                } else {
                    assert forall|q: int| 0 <= q < nm[n as int].checkboxes.len() implies !(
                    #[trigger] nm[n as int].checkboxes[q].targets.contains(note_id@)) by {
                        assert(!bm[q].targets.contains(note_id@));
                    }
                }
            }
            assert(refers_to(nm[n as int], note_id@) == found);
            if found {
                let ghost before = crate::reconcile::ast::names(out@);
                out.push(self.notes[n].id.clone());
                assert(crate::reconcile::ast::names(out@) =~= before.push(nm[n as int].id));
            }
            n += 1;
        }
        out
    }

    /// The note exists and has the field or a default for it.
    pub fn has_metadata_field(&self, note_id: &str, field: &str) -> (r: bool)
        ensures
            r == has_field(self@, note_id@, field@),
    {
        match find_note(&self.notes, note_id) {
            None => false,
            Some(i) => {
                assert(self@.notes[i as int] == self.notes@[i as int]@);
                lookup_field(&self.notes[i].fields, field).is_some() || lookup_field(&self.metadata_defaults, field).is_some()
            },
        }
    }

    /// A note's field value, else the default, else the empty string.
    pub fn observe_meta(&self, note_id: &str, field: &str) -> (r: Value)
        ensures
            r@ == observed_meta(self@, note_id@, field@),
    {
        match find_note(&self.notes, note_id) {
            Some(i) => {
                assert(self@.notes[i as int] == self.notes@[i as int]@);
                match lookup_field(&self.notes[i].fields, field) {
                    Some(k) => {
                        return crate::reconcile::types::value_clone(&self.notes[i].fields[k].1);
                    },
                    None => {},
                }
            },
            None => {},
        }
        match lookup_field(&self.metadata_defaults, field) {
            Some(k) => crate::reconcile::types::value_clone(&self.metadata_defaults[k].1),
            None => Value::String(String::new()),
        }
    }

    /// The IDs of all notes, in snapshot order.
    pub fn all_note_ids(&self) -> (r: Vec<String>)
        ensures
            crate::reconcile::ast::names(r@) == self@.notes.map_values(|n: NoteModel| n.id),
    {
        let ghost ids = self@.notes.map_values(|n: NoteModel| n.id);
        let mut out: Vec<String> = Vec::new();
        let mut k: usize = 0;
        while k < self.notes.len()
            invariant
                k <= self.notes.len(),
                ids == self@.notes.map_values(|n: NoteModel| n.id),
                ids.len() == self.notes.len(),
                crate::reconcile::ast::names(out@) == ids.take(k as int),
            decreases self.notes.len() - k,
        {
            assert(ids[k as int] == self.notes@[k as int].id@);
            let ghost before = crate::reconcile::ast::names(out@);
            out.push(self.notes[k].id.clone());
            assert(crate::reconcile::ast::names(out@) =~= before.push(ids[k as int]));
            assert(ids.take(k + 1) =~= ids.take(k as int).push(ids[k as int]));
            k += 1;
        }
        assert(ids.take(self.notes.len() as int) =~= ids);
        out
    }

    /// All checkboxes, note by note in snapshot order.
    pub fn all_checkbox_ids(&self) -> (r: Vec<CheckboxId>)
        ensures
            cids(r@) == boxes_upto(self@.notes, self@.notes.len() as int),
    {
        let ghost nm = self@.notes;
        let mut out: Vec<CheckboxId> = Vec::new();
        let mut n: usize = 0;
        assert(cids(out@) =~= Seq::<(Seq<char>, usize)>::empty());
        while n < self.notes.len()
            invariant
                n <= self.notes.len(),
                nm == self@.notes,
                nm.len() == self.notes.len(),
                cids(out@) == boxes_upto(nm, n as int),
            decreases self.notes.len() - n,
        {
            assert(nm[n as int] == self.notes@[n as int]@);
            let note = &self.notes[n];
            let ghost add = nm[n as int].checkboxes.map_values(|c: CheckboxModel| (nm[n as int].id, c.line_idx));
            let ghost start = cids(out@);
            let mut k: usize = 0;
            while k < note.checkboxes.len()
                invariant
                    k <= note.checkboxes.len(),
                    add == note.checkboxes@.map_values(|c: CheckboxSnapshot| c@).map_values(
                        |c: CheckboxModel| (note.id@, c.line_idx),
                    ),
                    cids(out@) == start + add.take(k as int),
                decreases note.checkboxes.len() - k,
            {
                let ghost before = cids(out@);
                out.push(CheckboxId { note_id: note.id.clone(), line_idx: note.checkboxes[k].line_idx });
                assert(cids(out@) =~= before.push(add[k as int]));
                assert(add.take(k + 1) =~= add.take(k as int).push(add[k as int]));
                k += 1;
            }
            assert(add.take(note.checkboxes.len() as int) =~= add);
            n += 1;
        }
        out
    }

    /// The snapshot of the given note files: their checklist items and inline
    /// metadata, with the core field defaults. A file whose ID an earlier one
    /// already has is left out.
    pub fn from_note_map(notes: &[NoteSource]) -> (r: WorkspaceSnapshot)
        ensures
            r@ == snapshot_of(notes@),
    {
        let mut out: Vec<NoteSnapshot> = Vec::new();
        let mut k: usize = 0;
        while k < notes.len()
            invariant
                k <= notes.len(),
                out@.map_values(|n: NoteSnapshot| n@) == sources_upto(notes@, k as int),
            decreases notes.len() - k,
        {
            let src = &notes[k];
            match find_note(&out, src.id.as_str()) {
                Some(_) => {},
                None => {
                    let ghost before = out@.map_values(|n: NoteSnapshot| n@);
                    let note = note_snapshot(src);
                    let ghost nmod = note@;
                    out.push(note);
                    assert(out@.map_values(|n: NoteSnapshot| n@) =~= before.push(nmod));
                },
            }
            k += 1;
        }
        WorkspaceSnapshot { notes: out, metadata_defaults: core_defaults_exec() }
    }
}


fn core_defaults_exec() -> (r: Vec<(String, Value)>)
    ensures
        field_models(r@) == core_defaults(),
{
    let mut r: Vec<(String, Value)> = Vec::new();
    r.push(("schema-version".to_owned(), Value::Int(1)));
    r.push(("aliases".to_owned(), Value::List(Vec::new())));
    r.push(("abstract".to_owned(), Value::String(String::new())));
    r.push(("keywords".to_owned(), Value::List(Vec::new())));
    r.push(("generated".to_owned(), Value::Bool(true)));
    r.push(("checklist-status".to_owned(), Value::Status(Status::NotApplicable)));
    r.push(("relation".to_owned(), Value::String("active".to_owned())));
    r.push(("relation-target".to_owned(), Value::List(Vec::new())));
    proof {
        crate::reconcile::types::lemma_value_models(Seq::<Value>::empty());
        assert(crate::reconcile::types::value_models(Seq::<Value>::empty()) =~= Seq::<ValueModel>::empty());
        assert(field_models(r@) =~= core_defaults());
    }
    r
}

fn note_snapshot(src: &NoteSource) -> (r: NoteSnapshot)
    ensures
        r@ == note_model_of(src.id@, src.file_path@, src.content@),
{
    let fields = inline_metadata_fields(src.content.as_str());
    let items = parse_checklist_items(src.content.as_str());
    let ghost im = crate::parser::item_models(items@);
    let mut boxes: Vec<CheckboxSnapshot> = Vec::new();
    let mut k: usize = 0;
    while k < items.len()
        invariant
            k <= items.len(),
            im == crate::parser::item_models(items@),
            im.len() == items.len(),
            boxes@.map_values(|c: CheckboxSnapshot| c@) == im.take(k as int).map_values(|it: ItemModel| box_model(it)),
        decreases items.len() - k,
    {
        let it = &items[k];
        assert(im[k as int] == it@);
        let mut ts: Vec<String> = Vec::new();
        match &it.kind {
            crate::parser::ChecklistItemKind::Local => {
                assert(crate::reconcile::ast::names(ts@) =~= it@.targets.map_values(|t: crate::parser::TargetModel| t.id));
            },
            crate::parser::ChecklistItemKind::Ref { targets } => {
                let ghost want = it@.targets.map_values(|t: crate::parser::TargetModel| t.id);
                let mut j: usize = 0;
                while j < targets.len()
                    invariant
                        j <= targets.len(),
                        want == targets@.map_values(|t: crate::parser::RefTarget| t@).map_values(
                            |t: crate::parser::TargetModel| t.id,
                        ),
                        crate::reconcile::ast::names(ts@) == want.take(j as int),
                    decreases targets.len() - j,
                {
                    let ghost before = crate::reconcile::ast::names(ts@);
                    ts.push(targets[j].target_id.clone());
                    assert(crate::reconcile::ast::names(ts@) =~= before.push(want[j as int]));
                    assert(want.take(j + 1) =~= want.take(j as int).push(want[j as int]));
                    j += 1;
                }
                assert(want.take(targets.len() as int) =~= want);
            },
        }
        let ghost before = boxes@.map_values(|c: CheckboxSnapshot| c@);
        let b = CheckboxSnapshot { line_idx: it.line_idx, checked: it.checked, indent: it.indent, targets: ts };
        assert(b@ == box_model(it@));
        boxes.push(b);
        assert(boxes@.map_values(|c: CheckboxSnapshot| c@) =~= before.push(box_model(it@)));
        assert(im.take(k + 1).map_values(|it: ItemModel| box_model(it)) =~= im.take(k as int).map_values(
            |it: ItemModel| box_model(it),
        ).push(box_model(im[k as int])));
        k += 1;
    }
    assert(im.take(items.len() as int) =~= im);
    NoteSnapshot { id: src.id.clone(), file_path: src.file_path.clone(), fields, checkboxes: boxes }
}

} // verus!
