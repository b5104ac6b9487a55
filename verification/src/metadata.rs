//! Line scanner for the central metadata index (`metadata.toml`): which
//! note record a line belongs to, where record keys, fields and
//! relation-target IDs stand.
use vstd::prelude::*;
use crate::parser::{lemma_line_bytes, starts_with, starts_with_at, subvec, indent_bytes};
use crate::text::{
    byte_offset, chars_eq, chars_of, is_ascii_digit, is_whitespace, is_ws, lines, split_lines,
    str_byte_len, string_from_range, trim, trim_range, trim_start, utf8_len, views,
    ws_prefix_count, ws_prefix_len, lemma_utf8_len_subrange, string_from_chars,
};

pub mod index;
pub mod records;
pub mod render;

verus! {

/// A text range: 0-based line, byte columns.
#[derive(Debug, Clone, Copy, PartialEq, Eq, Structural)]
pub struct MetadataTextRange {
    pub line: usize,
    pub start_col: usize,
    pub end_col: usize,
}

#[derive(Debug, Clone, Copy, PartialEq, Eq, Structural)]
pub enum MetadataIdKind {
    RecordKey,
    RelationTarget,
}

#[derive(Debug, PartialEq, Eq)]
pub struct MetadataIdPosition {
    pub kind: MetadataIdKind,
    pub owner_id: String,
    pub target_id: String,
    pub range: MetadataTextRange,
}

impl Clone for MetadataIdPosition {
    fn clone(&self) -> (r: Self)
        ensures
            r.kind == self.kind,
            r.owner_id@ == self.owner_id@,
            r.target_id@ == self.target_id@,
            r.range == self.range,
    {
        MetadataIdPosition {
            kind: self.kind,
            owner_id: self.owner_id.clone(),
            target_id: self.target_id.clone(),
            range: self.range,
        }
    }
}

/// Ten ASCII decimal digits.
pub open spec fn note_id_spec(s: Seq<char>) -> bool {
    s.len() == 10 && forall|k: int| 0 <= k < 10 ==> is_ascii_digit(#[trigger] s[k])
}

fn note_id_chars(v: &Vec<char>) -> (r: bool)
    ensures
        r == note_id_spec(v@),
{
    if v.len() != 10 {
        return false;
    }
    let mut k: usize = 0;
    while k < 10
        invariant
            v.len() == 10,
            k <= 10,
            forall|j: int| 0 <= j < k ==> is_ascii_digit(#[trigger] v@[j]),
        decreases 10 - k,
    {
        if !('0' <= v[k] && v[k] <= '9') {
            return false;
        }
        k += 1;
    }
    true
}

/// Whether `id` is exactly ten ASCII decimal digits.
pub fn is_note_id(id: &str) -> (r: bool)
    ensures
        r == note_id_spec(id@),
{
    let v = chars_of(id);
    note_id_chars(&v)
}

/// A `[notes.ID]` or `[notes.ID.sub]` header line.
pub struct NotesHeader {
    pub id: Seq<char>,
    /// Byte column of the first ID char.
    pub start_col: int,
    /// Byte column past the last ID char.
    pub end_col: int,
    /// `[notes.ID]` itself rather than a sub-table.
    pub is_record: bool,
}

/// A bare TOML key char: ASCII letter or digit, `_` or `-`.
pub open spec fn is_bare_key_char(c: char) -> bool {
    ('a' <= c && c <= 'z') || ('A' <= c && c <= 'Z') || ('0' <= c && c <= '9') || c == '_' || c
        == '-'
}

/// The first index at or after `i` whose char is not a bare key char.
pub open spec fn bare_key_end(s: Seq<char>, i: int) -> int
    decreases s.len() - i,
{
    if i < 0 || i >= s.len() || !is_bare_key_char(s[i]) {
        i
    } else {
        bare_key_end(s, i + 1)
    }
}

/// The first index at or after `i` holding `c`.
pub open spec fn find_char(s: Seq<char>, i: int, c: char) -> Option<int>
    decreases s.len() - i,
{
    if i < 0 || i >= s.len() {
        None
    } else if s[i] == c {
        Some(i)
    } else {
        find_char(s, i + 1, c)
    }
}

pub open spec fn notes_prefix() -> Seq<char> {
    seq!['[', 'n', 'o', 't', 'e', 's', '.']
}

/// The key after `[notes.`: a quoted key up to the closing quote, or a
/// bare key; with the index after it and the width of the opening quote.
pub open spec fn key_parts(ap: Seq<char>) -> Option<(Seq<char>, int, int)> {
    let first = ap[0];
    if first == '"' || first == '\'' {
        match find_char(ap, 1, first) {
            None => None,
            Some(q) => Some((ap.subrange(1, q), q + 1, 1int)),
        }
    } else {
        let e = bare_key_end(ap, 0);
        Some((ap.take(e), e, 0int))
    }
}

/// The header parsed from a line of the index: the key after `[notes.`,
/// quoted or bare, must be a note ID and be followed (after white space) by
/// `]` or `.`.
pub open spec fn notes_header(line: Seq<char>) -> Option<NotesHeader> {
    let t = trim_start(line);
    if !starts_with(t, notes_prefix()) || t.len() <= 7 {
        None
    } else {
        let ap = t.skip(7);
        match key_parts(ap) {
            None => None,
            Some((id, after, key_offset)) => {
                let rest = trim_start(ap.skip(after));
                let is_record = rest.len() > 0 && rest[0] == ']';
                let is_sub = rest.len() > 0 && rest[0] == '.';
                if !note_id_spec(id) || (!is_record && !is_sub) {
                    None
                } else {
                    let start = indent_bytes(line) + 7 + key_offset;
                    Some(NotesHeader { id, start_col: start, end_col: start + 10, is_record })
                }
            },
        }
    }
}

/// A table header: trimmed at the start, it begins with `[` and ends with
/// `]`.
pub open spec fn is_any_table_header(line: Seq<char>) -> bool {
    let t = trim_start(line);
    t.len() > 0 && t[0] == '[' && t.last() == ']'
}

/// `[notes.ID.user]`-style header: trimmed, it ends with `.user]`.
pub open spec fn is_user_subtable_header(line: Seq<char>) -> bool {
    let t = trim(line);
    t.len() >= 6 && t.subrange(t.len() - 6, t.len() as int) == seq!['.', 'u', 's', 'e', 'r', ']']
}

/// Exec form of `notes_header`.
pub struct ParsedHeader {
    pub id: Vec<char>,
    pub start_col: usize,
    pub end_col: usize,
    pub is_record: bool,
}

fn find_char_exec(s: &Vec<char>, i: usize, c: char) -> (r: Option<usize>)
    requires
        i <= s.len(),
    ensures
        r matches Some(j) ==> find_char(s@, i as int, c) == Some(j as int) && i <= j < s.len(),
        r is None ==> find_char(s@, i as int, c) is None,
{
    let mut j = i;
    while j < s.len()
        invariant
            i <= j <= s.len(),
            find_char(s@, i as int, c) == find_char(s@, j as int, c),
        decreases s.len() - j,
    {
        if s[j] == c {
            return Some(j);
        }
        j += 1;
    }
    None
}

/// `key_parts` of `line[a..]`, with absolute indices.
fn key_parts_exec(line: &Vec<char>, a: usize) -> (r: Option<(usize, usize, usize, usize)>)
    requires
        a < line.len(),
    ensures
        r matches Some(k) ==> a <= k.0 <= k.1 <= k.2 <= line.len() && key_parts(line@.skip(a as int))
            == Some((line@.subrange(k.0 as int, k.1 as int), k.2 - a, k.3 as int)) && k.3 <= 1 && (k.3
            == 1 ==> k.0 == a + 1) && (k.3 == 0 ==> k.0 == a),
        r is None ==> key_parts(line@.skip(a as int)) is None,
{
    let n = line.len();
    let ghost ap = line@.skip(a as int);
    let first = line[a];
    if first == '"' || first == '\'' {
        proof {
            lemma_find_char_shift(line@, a as int, 1, first);
        }
        match find_char_exec(line, a + 1, first) {
            None => None,
            Some(q) => {
                assert(ap.subrange(1, q - a) =~= line@.subrange(a + 1, q as int));
                Some((a + 1, q, q + 1, 1))
            },
        }
    } else {
        let mut e = a;
        while e < n && (('a' <= line[e] && line[e] <= 'z') || ('A' <= line[e] && line[e] <= 'Z') || (
        '0' <= line[e] && line[e] <= '9') || line[e] == '_' || line[e] == '-')
            invariant
                a <= e <= n == line.len(),
                ap == line@.skip(a as int),
                bare_key_end(ap, 0) == bare_key_end(ap, e - a),
            decreases n - e,
        {
            e += 1;
        }
        assert(ap.take(e - a) =~= line@.subrange(a as int, e as int));
        Some((a, e, e, 0))
    }
}

proof fn lemma_split_bytes(line: Seq<char>, w: int)
    requires
        0 <= w <= line.len(),
    ensures
        utf8_len(line.take(w)) + utf8_len(line.skip(w)) == utf8_len(line),
        utf8_len(line.skip(w)) >= line.len() - w,
{
    crate::text::lemma_utf8_len_concat(line.take(w), line.skip(w));
    assert(line.take(w) + line.skip(w) =~= line);
    crate::text::lemma_utf8_len_ge_len(line.skip(w));
}

fn parse_notes_header(line: &Vec<char>) -> (r: Option<ParsedHeader>)
    requires
        utf8_len(line@) <= usize::MAX,
    ensures
        r matches Some(h) ==> notes_header(line@) == Some(
            NotesHeader {
                id: h.id@,
                start_col: h.start_col as int,
                end_col: h.end_col as int,
                is_record: h.is_record,
            },
        ),
        r is None ==> notes_header(line@) is None,
{
    let n = line.len();
    let w = ws_prefix_count(line, 0, n);
    proof {
        assert(line@.subrange(0, n as int) =~= line@);
        assert(line@.skip(w as int) =~= trim_start(line@));
    }
    if !starts_with_at(line, w, &['[', 'n', 'o', 't', 'e', 's', '.']) || n - w <= 7 {
        return None;
    }
    let ghost t = trim_start(line@);
    let ghost ap = t.skip(7);
    let a = w + 7;
    assert(ap =~= line@.skip(a as int));
    let (id_from, id_to, after, key_offset) = match key_parts_exec(line, a) {
        None => {
            return None;
        },
        Some(k) => k,
    };
    let id = subvec(line, id_from, id_to);
    let r0 = ws_prefix_count(line, after, n);
    proof {
        assert(line@.subrange(after as int, n as int) =~= ap.skip(after - a));
    }
    let is_record = after + r0 < n && line[after + r0] == ']';
    let is_sub = after + r0 < n && line[after + r0] == '.';
    if !note_id_chars(&id) {
        return None;
    }
    if !is_record && !is_sub {
        return None;
    }
    let indent = byte_offset(line, w);
    proof {
        lemma_split_bytes(line@, w as int);
    }
    let start = indent + 7 + key_offset;
    Some(ParsedHeader { id, start_col: start, end_col: start + 10, is_record })
}

proof fn lemma_find_char_shift(s: Seq<char>, a: int, i: int, c: char)
    requires
        0 <= a <= s.len(),
        0 <= i,
    ensures
        find_char(s.skip(a), i, c) == (match find_char(s, a + i, c) {
            Some(j) => Some(j - a),
            None => None,
        }),
    decreases s.len() - a - i,
{
    if a + i < s.len() && s[a + i] != c {
        lemma_find_char_shift(s, a, i + 1, c);
    }
}


fn any_table_header(line: &Vec<char>) -> (r: bool)
    ensures
        r == is_any_table_header(line@),
{
    let w = ws_prefix_count(line, 0, line.len());
    proof {
        assert(line@.subrange(0, line@.len() as int) =~= line@);
        assert(line@.skip(w as int) =~= trim_start(line@));
    }
    w < line.len() && line[w] == '[' && line[line.len() - 1] == ']'
}

fn user_subtable_header(line: &Vec<char>) -> (r: bool)
    ensures
        r == is_user_subtable_header(line@),
{
    let (a, b) = trim_range(line, 0, line.len());
    proof {
        assert(line@.subrange(0, line@.len() as int) =~= line@);
    }
    if b - a < 6 {
        return false;
    }
    let r = starts_with_at(line, b - 6, &['.', 'u', 's', 'e', 'r', ']']);
    proof {
        let t = trim(line@);
        assert(t =~= line@.subrange(a as int, b as int));
        assert(t.subrange(t.len() - 6, t.len() as int) =~= line@.skip(b - 6).take(6));
    }
    r
}

/// A header line of the index: a `[notes.ID]` header or any other table
/// header.
pub open spec fn is_header_line(line: Seq<char>) -> bool {
    notes_header(line) is Some || is_any_table_header(line)
}

/// The record that the line after the first `n` lines belongs to.
pub open spec fn record_owner_upto(ls: Seq<Seq<char>>, n: int) -> Option<Seq<char>>
    decreases n,
{
    if n <= 0 {
        None
    } else {
        let l = ls[n - 1];
        match notes_header(l) {
            Some(h) => Some(h.id),
            None => if is_any_table_header(l) {
                None
            } else {
                record_owner_upto(ls, n - 1)
            },
        }
    }
}

/// The note ID of the record that line `line_idx` belongs to.
pub open spec fn current_record(content: Seq<char>, line_idx: int) -> Option<Seq<char>> {
    let ls = lines(content);
    record_owner_upto(ls, if line_idx + 1 < ls.len() { line_idx + 1 } else { ls.len() as int })
}

/// Lines of the index with the byte-length bound.
fn index_lines(content: &str) -> (ls: Vec<Vec<char>>)
    ensures
        views(ls@) == lines(content@),
        forall|q: int| 0 <= q < ls.len() ==> utf8_len(#[trigger] ls@[q]@) <= usize::MAX,
{
    let cs = chars_of(content);
    let _total = str_byte_len(content);
    let ls = split_lines(&cs);
    proof {
        assert forall|q: int| 0 <= q < ls.len() implies utf8_len(#[trigger] ls@[q]@) <= usize::MAX by {
            assert(ls@[q]@ == views(ls@)[q]);
            lemma_line_bytes(content@, q);
        }
    }
    ls
}

pub fn current_record_id(content: &str, line_idx: usize) -> (r: Option<String>)
    ensures
        r matches Some(id) ==> current_record(content@, line_idx as int) == Some(id@),
        r is None ==> current_record(content@, line_idx as int) is None,
{
    let ls = index_lines(content);
    let ghost lv = views(ls@);
    let mut current: Option<Vec<char>> = None;
    let mut i: usize = 0;
    while i < ls.len() && i <= line_idx
        invariant
            i <= ls.len(),
            i <= line_idx + 1,
            lv == views(ls@),
            forall|q: int| 0 <= q < ls.len() ==> utf8_len(#[trigger] ls@[q]@) <= usize::MAX,
            current matches Some(c) ==> record_owner_upto(lv, i as int) == Some(c@),
            current is None ==> record_owner_upto(lv, i as int) is None,
        decreases ls.len() - i,
    {
        let line = &ls[i];
        assert(line@ == lv[i as int]);
        match parse_notes_header(line) {
            Some(h) => {
                current = Some(h.id);
            },
            None => {
                if any_table_header(line) {
                    current = None;
                }
            },
        }
        i += 1;
    }
    match current {
        Some(c) => Some(string_from_chars(&c)),
        None => None,
    }
}

/// The range of the `[notes.ID]` key of record `id`: the first record header
/// with that ID.
pub open spec fn record_key_range_from(ls: Seq<Seq<char>>, i: int, id: Seq<char>) -> Option<(int, int, int)>
    decreases ls.len() - i,
{
    if i < 0 || i >= ls.len() {
        None
    } else if notes_header(ls[i]) is Some && notes_header(ls[i])->0.is_record && notes_header(ls[i])->0.id == id {
        Some((i, notes_header(ls[i])->0.start_col, notes_header(ls[i])->0.end_col))
    } else {
        record_key_range_from(ls, i + 1, id)
    }
}

pub open spec fn range_model(r: MetadataTextRange) -> (int, int, int) {
    (r.line as int, r.start_col as int, r.end_col as int)
}

pub fn find_record_key_range(content: &str, id: &str) -> (r: Option<MetadataTextRange>)
    ensures
        r matches Some(x) ==> record_key_range_from(lines(content@), 0, id@) == Some(range_model(x)),
        r is None ==> record_key_range_from(lines(content@), 0, id@) is None,
{
    let ls = index_lines(content);
    let idv = chars_of(id);
    let ghost lv = views(ls@);
    let mut i: usize = 0;
    while i < ls.len()
        invariant
            i <= ls.len(),
            lv == views(ls@),
            lv == lines(content@),
            idv@ == id@,
            forall|q: int| 0 <= q < ls.len() ==> utf8_len(#[trigger] ls@[q]@) <= usize::MAX,
            record_key_range_from(lv, 0, id@) == record_key_range_from(lv, i as int, id@),
        decreases ls.len() - i,
    {
        let line = &ls[i];
        assert(line@ == lv[i as int]);
        match parse_notes_header(line) {
            Some(h) => {
                if h.is_record && chars_eq(&h.id, &idv) {
                    return Some(MetadataTextRange { line: i, start_col: h.start_col, end_col: h.end_col });
                }
            },
            None => {},
        }
        i += 1;
    }
    None
}

/// The owner and whether a `.user` sub-table is open, after the first `n`
/// lines.
pub open spec fn owner_state_upto(ls: Seq<Seq<char>>, n: int) -> (Option<Seq<char>>, bool)
    decreases n,
{
    if n <= 0 {
        (None, false)
    } else {
        let l = ls[n - 1];
        match notes_header(l) {
            Some(h) => (Some(h.id), !h.is_record && is_user_subtable_header(l)),
            None => if is_any_table_header(l) {
                (None, false)
            } else {
                owner_state_upto(ls, n - 1)
            },
        }
    }
}

/// The key of a `key = value` line: the trimmed text before the first `=`.
pub open spec fn field_key(line: Seq<char>) -> Option<Seq<char>> {
    let t = trim_start(line);
    match find_char(t, 0, '=') {
        Some(e) => Some(trim(t.take(e))),
        None => None,
    }
}

pub open spec fn user_prefix() -> Seq<char> {
    seq!['u', 's', 'e', 'r', '.']
}

/// `field` without a leading `user.`.
pub open spec fn strip_user(field: Seq<char>) -> Seq<char> {
    if starts_with(field, user_prefix()) {
        field.skip(5)
    } else {
        field
    }
}

/// The first line of record `id` whose key is `field` (for a `.user`
/// sub-table, `field` without its `user.` prefix).
pub open spec fn field_line_from(ls: Seq<Seq<char>>, i: int, id: Seq<char>, field: Seq<char>) -> Option<int>
    decreases ls.len() - i,
{
    if i < 0 || i >= ls.len() {
        None
    } else {
        let st = owner_state_upto(ls, i);
        let l = ls[i];
        let wanted = if st.1 {
            strip_user(field)
        } else {
            field
        };
        if !is_header_line(l) && st.0 == Some(id) && field_key(l) == Some(wanted) {
            Some(i)
        } else {
            field_line_from(ls, i + 1, id, field)
        }
    }
}

fn field_key_exec(line: &Vec<char>) -> (r: Option<Vec<char>>)
    ensures
        r matches Some(k) ==> field_key(line@) == Some(k@),
        r is None ==> field_key(line@) is None,
{
    let n = line.len();
    let w = ws_prefix_count(line, 0, n);
    proof {
        assert(line@.subrange(0, n as int) =~= line@);
        assert(line@.skip(w as int) =~= trim_start(line@));
        lemma_find_char_shift(line@, w as int, 0, '=');
    }
    match find_char_exec(line, w, '=') {
        None => None,
        Some(e) => {
            let (a, b) = trim_range(line, w, e);
            assert(line@.subrange(w as int, e as int) =~= trim_start(line@).take(e - w));
            Some(subvec(line, a, b))
        },
    }
}

fn strip_user_exec(field: &Vec<char>) -> (r: Vec<char>)
    ensures
        r@ == strip_user(field@),
{
    if starts_with_at(field, 0, &['u', 's', 'e', 'r', '.']) {
        assert(field@.skip(0) =~= field@);
        subvec(field, 5, field.len())
    } else {
        assert(field@.skip(0) =~= field@);
        subvec(field, 0, field.len())
    }
}

pub fn find_field_line_range(content: &str, id: &str, field: &str) -> (r: Option<MetadataTextRange>)
    ensures
        r matches Some(x) ==> field_line_from(lines(content@), 0, id@, field@) == Some(x.line as int)
            && x.start_col == 0 && x.end_col == utf8_len(lines(content@)[x.line as int]) && x.line < lines(content@).len(),
        r is None ==> field_line_from(lines(content@), 0, id@, field@) is None,
{
    let ls = index_lines(content);
    let idv = chars_of(id);
    let fv = chars_of(field);
    let stripped = strip_user_exec(&fv);
    let ghost lv = views(ls@);
    let mut owner: Option<Vec<char>> = None;
    let mut in_user = false;
    let mut i: usize = 0;
    while i < ls.len()
        invariant
            i <= ls.len(),
            lv == views(ls@),
            lv == lines(content@),
            idv@ == id@,
            fv@ == field@,
            stripped@ == strip_user(field@),
            forall|q: int| 0 <= q < ls.len() ==> utf8_len(#[trigger] ls@[q]@) <= usize::MAX,
            owner_state_upto(lv, i as int).1 == in_user,
            owner_state_upto(lv, i as int).0 == (match owner {
                Some(o) => Some(o@),
                None => None::<Seq<char>>,
            }),
            field_line_from(lv, 0, id@, field@) == field_line_from(lv, i as int, id@, field@),
        decreases ls.len() - i,
    {
        let line = &ls[i];
        assert(line@ == lv[i as int]);
        match parse_notes_header(line) {
            Some(h) => {
                in_user = !h.is_record && user_subtable_header(line);
                owner = Some(h.id);
            },
            None => {
                if any_table_header(line) {
                    owner = None;
                    in_user = false;
                } else {
                    let is_owner = match &owner {
                        Some(o) => chars_eq(o, &idv),
                        None => false,
                    };
                    if is_owner {
                        match field_key_exec(line) {
                            Some(k) => {
                                let hit = if in_user {
                                    chars_eq(&k, &stripped)
                                } else {
                                    chars_eq(&k, &fv)
                                };
                                if hit {
                                    let len = byte_offset(line, line.len());
                                    assert(line@.take(line@.len() as int) =~= line@);
                                    return Some(MetadataTextRange { line: i, start_col: 0, end_col: len });
                                }
                            },
                            None => {},
                        }
                    }
                }
            },
        }
        i += 1;
    }
    None
}

/// The distinct keys of record `id` in order of appearance, `user.` added
/// for a `.user` sub-table, empty keys left out.
pub open spec fn present_fields_upto(ls: Seq<Seq<char>>, n: int, id: Seq<char>) -> Seq<Seq<char>>
    decreases n,
{
    if n <= 0 {
        seq![]
    } else {
        let prev = present_fields_upto(ls, n - 1, id);
        let st = owner_state_upto(ls, n - 1);
        let l = ls[n - 1];
        if is_header_line(l) || st.0 != Some(id) {
            prev
        } else {
            match field_key(l) {
                None => prev,
                Some(c) => {
                    let f = if st.1 {
                        user_prefix() + c
                    } else {
                        c
                    };
                    if f.len() > 0 && !prev.contains(f) {
                        prev.push(f)
                    } else {
                        prev
                    }
                },
            }
        }
    }
}

fn contains_chars(v: &Vec<Vec<char>>, x: &Vec<char>) -> (r: bool)
    ensures
        r == views(v@).contains(x@),
{
    let mut i: usize = 0;
    while i < v.len()
        invariant
            i <= v.len(),
            forall|k: int| 0 <= k < i ==> v@[k]@ != x@,
        decreases v.len() - i,
    {
        if chars_eq(&v[i], x) {
            assert(views(v@)[i as int] == x@);
            return true;
        }
        i += 1;
    }
    assert forall|k: int| 0 <= k < views(v@).len() implies views(v@)[k] != x@ by {
        assert(views(v@)[k] == v@[k]@);
    }
    false
}

pub fn present_record_fields(content: &str, id: &str) -> (r: Vec<String>)
    ensures
        r@.map_values(|s: String| s@) == present_fields_upto(lines(content@), lines(content@).len() as int, id@),
{
    let ls = index_lines(content);
    let idv = chars_of(id);
    let ghost lv = views(ls@);
    let mut fields: Vec<Vec<char>> = Vec::new();
    let mut owner: Option<Vec<char>> = None;
    let mut in_user = false;
    let mut i: usize = 0;
    while i < ls.len()
        invariant
            i <= ls.len(),
            lv == views(ls@),
            lv == lines(content@),
            idv@ == id@,
            forall|q: int| 0 <= q < ls.len() ==> utf8_len(#[trigger] ls@[q]@) <= usize::MAX,
            owner_state_upto(lv, i as int).1 == in_user,
            owner_state_upto(lv, i as int).0 == (match owner {
                Some(o) => Some(o@),
                None => None::<Seq<char>>,
            }),
            views(fields@) == present_fields_upto(lv, i as int, id@),
        decreases ls.len() - i,
    {
        let line = &ls[i];
        assert(line@ == lv[i as int]);
        match parse_notes_header(line) {
            Some(h) => {
                in_user = !h.is_record && user_subtable_header(line);
                owner = Some(h.id);
            },
            None => {
                if any_table_header(line) {
                    owner = None;
                    in_user = false;
                } else {
                    let is_owner = match &owner {
                        Some(o) => chars_eq(o, &idv),
                        None => false,
                    };
                    if is_owner {
                        match field_key_exec(line) {
                            Some(k) => {
                                let f = if in_user {
                                    let mut u: Vec<char> = vec!['u', 's', 'e', 'r', '.'];
                                    let mut j: usize = 0;
                                    while j < k.len()
                                        invariant
                                            j <= k.len(),
                                            u@ == user_prefix() + k@.take(j as int),
                                        decreases k.len() - j,
                                    {
                                        u.push(k[j]);
                                        assert(k@.take(j + 1) =~= k@.take(j as int).push(k@[j as int]));
                                        j += 1;
                                    }
                                    assert(k@.take(k.len() as int) =~= k@);
                                    u
                                } else {
                                    k
                                };
                                if f.len() > 0 && !contains_chars(&fields, &f) {
                                    let ghost before = fields@;
                                    fields.push(f);
                                    assert(views(fields@) =~= views(before).push(fields@.last()@));
                                }
                            },
                            None => {},
                        }
                    }
                }
            },
        }
        i += 1;
    }
    let mut out: Vec<String> = Vec::new();
    let mut k: usize = 0;
    while k < fields.len()
        invariant
            k <= fields.len(),
            out@.map_values(|s: String| s@) == views(fields@).take(k as int),
        decreases fields.len() - k,
    {
        let ghost before = out@;
        let st = string_from_chars(&fields[k]);
        assert(st@ == views(fields@)[k as int]);
        out.push(st);
        assert(out@.map_values(|s: String| s@) =~= before.map_values(|s: String| s@).push(st@));
        assert(views(fields@).take(k + 1) =~= views(fields@).take(k as int).push(views(fields@)[k as int]));
        k += 1;
    }
    assert(views(fields@).take(fields.len() as int) =~= views(fields@));
    out
}


/// A position as plain values.
pub struct PositionModel {
    pub kind: MetadataIdKind,
    pub owner_id: Seq<char>,
    pub target_id: Seq<char>,
    pub line: int,
    pub start_col: int,
    pub end_col: int,
}

impl View for MetadataIdPosition {
    type V = PositionModel;

    open spec fn view(&self) -> PositionModel {
        PositionModel {
            kind: self.kind,
            owner_id: self.owner_id@,
            target_id: self.target_id@,
            line: self.range.line as int,
            start_col: self.range.start_col as int,
            end_col: self.range.end_col as int,
        }
    }
}

/// A quoted ten-digit ID (`"..."` or `'...'`) whose opening quote is at
/// char `c`.
pub open spec fn quoted_id_at(line: Seq<char>, c: int) -> bool {
    &&& 0 <= c
    &&& c + 11 < line.len()
    &&& (line[c] == '"' || line[c] == '\'')
    &&& line[c + 11] == line[c]
    &&& forall|k: int| c + 1 <= k <= c + 10 ==> is_ascii_digit(#[trigger] line[k])
}

/// Opening-quote positions of the successive quoted IDs from `c` on.
pub open spec fn quoted_ids_from(line: Seq<char>, c: int) -> Seq<int>
    decreases line.len() - c,
{
    if c < 0 || c >= line.len() {
        seq![]
    } else if quoted_id_at(line, c) {
        seq![c] + quoted_ids_from(line, c + 12)
    } else {
        quoted_ids_from(line, c + 1)
    }
}

/// The relation-target positions of a line owned by `owner`.
pub open spec fn quoted_positions(line: Seq<char>, owner: Seq<char>, idx: int) -> Seq<PositionModel> {
    quoted_ids_from(line, 0).map_values(
        |c: int|
            PositionModel {
                kind: MetadataIdKind::RelationTarget,
                owner_id: owner,
                target_id: line.subrange(c + 1, c + 11),
                line: idx,
                start_col: utf8_len(line.take(c + 1)) as int,
                end_col: utf8_len(line.take(c + 1)) as int + 10,
            },
    )
}

pub open spec fn relation_target_key() -> Seq<char> {
    seq!['r', 'e', 'l', 'a', 't', 'i', 'o', 'n', '-', 't', 'a', 'r', 'g', 'e', 't']
}

/// The line starts a `relation-target` entry.
pub open spec fn starts_relation_target(line: Seq<char>) -> bool {
    let t = trim_start(line);
    starts_with(t, relation_target_key()) && (t.len() <= 15 || is_ws(t[15]) || t[15] == '=')
}

/// Positions of record keys and relation-target IDs in the first `n`
/// lines, with the owner and whether a relation-target array is open.
pub open spec fn positions_upto(ls: Seq<Seq<char>>, n: int) -> (Seq<PositionModel>, Option<Seq<char>>, bool)
    decreases n,
{
    if n <= 0 {
        (seq![], None, false)
    } else {
        let p = positions_upto(ls, n - 1);
        let l = ls[n - 1];
        match notes_header(l) {
            Some(h) => {
                let add = if h.is_record {
                    seq![
                        PositionModel {
                            kind: MetadataIdKind::RecordKey,
                            owner_id: h.id,
                            target_id: h.id,
                            line: n - 1,
                            start_col: h.start_col,
                            end_col: h.end_col,
                        },
                    ]
                } else {
                    seq![]
                };
                (p.0 + add, Some(h.id), false)
            },
            None => if is_any_table_header(l) {
                (p.0, None, false)
            } else if p.1 is None {
                p
            } else {
                let in_rt = p.2 || starts_relation_target(l);
                if in_rt {
                    (p.0 + quoted_positions(l, p.1->0, n - 1), p.1, !l.contains(']'))
                } else {
                    (p.0, p.1, false)
                }
            },
        }
    }
}

pub open spec fn positions_of(content: Seq<char>) -> Seq<PositionModel> {
    let ls = lines(content);
    positions_upto(ls, ls.len() as int).0
}

pub open spec fn position_models(v: Seq<MetadataIdPosition>) -> Seq<PositionModel> {
    v.map_values(|p: MetadataIdPosition| p@)
}

fn quoted_id_here(line: &Vec<char>, c: usize) -> (r: bool)
    ensures
        r == quoted_id_at(line@, c as int),
{
    if c >= line.len() || line.len() - c <= 11 {
        return false;
    }
    let q = line[c];
    if (q != '"' && q != '\'') || line[c + 11] != q {
        return false;
    }
    let mut k = c + 1;
    while k <= c + 10
        invariant
            c + 1 <= k <= c + 11,
            c + 11 < line.len(),
            forall|j: int| c + 1 <= j < k ==> is_ascii_digit(#[trigger] line@[j]),
        decreases c + 11 - k,
    {
        if !('0' <= line[k] && line[k] <= '9') {
            return false;
        }
        k += 1;
    }
    true
}

fn push_quoted_positions(line: &Vec<char>, owner: &Vec<char>, idx: usize, out: &mut Vec<MetadataIdPosition>)
    requires
        utf8_len(line@) <= usize::MAX,
    ensures
        position_models(final(out)@) == position_models(old(out)@) + quoted_positions(line@, owner@, idx as int),
{
    let ghost all = quoted_positions(line@, owner@, idx as int);
    let ghost start = position_models(out@);
    let mut c: usize = 0;
    while c < line.len()
        invariant
            c <= line.len(),
            utf8_len(line@) <= usize::MAX,
            all == quoted_positions(line@, owner@, idx as int),
            ({
                let rest = quoted_ids_from(line@, c as int).map_values(
                    |c: int|
                        PositionModel {
                            kind: MetadataIdKind::RelationTarget,
                            owner_id: owner@,
                            target_id: line@.subrange(c + 1, c + 11),
                            line: idx as int,
                            start_col: utf8_len(line@.take(c + 1)) as int,
                            end_col: utf8_len(line@.take(c + 1)) as int + 10,
                        },
                );
                all == position_models(out@).subrange(start.len() as int, position_models(out@).len() as int) + rest
            }),
            position_models(out@).len() >= start.len(),
            position_models(out@).take(start.len() as int) == start,
        decreases line.len() - c,
    {
        let ghost before = position_models(out@);
        if quoted_id_here(line, c) {
            let s0 = byte_offset(line, c + 1);
            proof {
                crate::text::lemma_utf8_len_take_succ(line@, c as int);
                let t11 = line@.take(c + 11);
                assert forall|j: int| c + 1 <= j < c + 11 implies crate::text::char_len(#[trigger] line@[j]) == 1 by {}
                lemma_ascii_run_bytes(line@, c + 1, c + 11);
                lemma_utf8_len_subrange(line@, 0, c + 11);
                assert(line@.subrange(0, c + 11) =~= line@.take(c + 11));
                lemma_utf8_len_subrange(line@, c + 11, line@.len() as int);
                lemma_utf8_len_subrange(line@, 0, line@.len() as int);
                assert(line@.subrange(0, line@.len() as int) =~= line@.take(line@.len() as int));
                assert(line@.take(line@.len() as int) =~= line@);
            }
            let id = string_from_range(line, c + 1, c + 11);
            let pos = MetadataIdPosition {
                kind: MetadataIdKind::RelationTarget,
                owner_id: string_from_chars(owner),
                target_id: id,
                range: MetadataTextRange { line: idx, start_col: s0, end_col: s0 + 10 },
            };
            out.push(pos);
            proof {
                assert(position_models(out@) =~= before.push(pos@));
            }
            c = c + 12;
        } else {
            c = c + 1;
        }
    }
    proof {
        assert(quoted_ids_from(line@, c as int) =~= Seq::<int>::empty());
        assert(position_models(out@) =~= start + all);
    }
}

/// Chars `a..b` of 1 byte each make `b - a` bytes.
proof fn lemma_ascii_run_bytes(s: Seq<char>, a: int, b: int)
    requires
        0 <= a <= b <= s.len(),
        forall|j: int| a <= j < b ==> crate::text::char_len(#[trigger] s[j]) == 1,
    ensures
        utf8_len(s.take(b)) == utf8_len(s.take(a)) + (b - a),
    decreases b - a,
{
    if a < b {
        lemma_ascii_run_bytes(s, a, b - 1);
        crate::text::lemma_utf8_len_take_succ(s, b - 1);
    }
}

fn contains_close_bracket(line: &Vec<char>) -> (r: bool)
    ensures
        r == line@.contains(']'),
{
    let mut i: usize = 0;
    while i < line.len()
        invariant
            i <= line.len(),
            forall|k: int| 0 <= k < i ==> line@[k] != ']',
        decreases line.len() - i,
    {
        if line[i] == ']' {
            return true;
        }
        i += 1;
    }
    false
}

fn starts_relation_target_exec(line: &Vec<char>) -> (r: bool)
    ensures
        r == starts_relation_target(line@),
{
    let w = ws_prefix_count(line, 0, line.len());
    proof {
        assert(line@.subrange(0, line@.len() as int) =~= line@);
        assert(line@.skip(w as int) =~= trim_start(line@));
    }
    if !starts_with_at(line, w, &['r', 'e', 'l', 'a', 't', 'i', 'o', 'n', '-', 't', 'a', 'r', 'g', 'e', 't']) {
        return false;
    }
    if line.len() - w <= 15 {
        return true;
    }
    let c = line[w + 15];
    is_whitespace(c) || c == '='
}

/// All record-key and relation-target ID positions of the index.
pub fn all_id_positions(content: &str) -> (r: Vec<MetadataIdPosition>)
    ensures
        position_models(r@) == positions_of(content@),
{
    let ls = index_lines(content);
    let ghost lv = views(ls@);
    let mut positions: Vec<MetadataIdPosition> = Vec::new();
    let mut owner: Option<Vec<char>> = None;
    let mut in_rt = false;
    let mut i: usize = 0;
    while i < ls.len()
        invariant
            i <= ls.len(),
            lv == views(ls@),
            lv == lines(content@),
            forall|q: int| 0 <= q < ls.len() ==> utf8_len(#[trigger] ls@[q]@) <= usize::MAX,
            positions_upto(lv, i as int).0 == position_models(positions@),
            positions_upto(lv, i as int).1 == (match owner {
                Some(o) => Some(o@),
                None => None::<Seq<char>>,
            }),
            positions_upto(lv, i as int).2 == in_rt,
        decreases ls.len() - i,
    {
        let line = &ls[i];
        assert(line@ == lv[i as int]);
        let ghost before = position_models(positions@);
        match parse_notes_header(line) {
            Some(h) => {
                if h.is_record {
                    let p = MetadataIdPosition {
                        kind: MetadataIdKind::RecordKey,
                        owner_id: string_from_chars(&h.id),
                        target_id: string_from_chars(&h.id),
                        range: MetadataTextRange { line: i, start_col: h.start_col, end_col: h.end_col },
                    };
                    positions.push(p);
                    assert(position_models(positions@) =~= before.push(p@));
                }
                owner = Some(h.id);
                in_rt = false;
            },
            None => {
                if any_table_header(line) {
                    owner = None;
                    in_rt = false;
                } else {
                    match &owner {
                        None => {},
                        Some(o) => {
                            if starts_relation_target_exec(line) {
                                in_rt = true;
                            }
                            if in_rt {
                                push_quoted_positions(line, o, i, &mut positions);
                                if contains_close_bracket(line) {
                                    in_rt = false;
                                }
                            }
                        },
                    }
                }
            },
        }
        i += 1;
    }
    positions
}

/// The first position on line `line_idx` whose range holds column `col`.
pub open spec fn position_at_from(ps: Seq<PositionModel>, k: int, line: int, col: int) -> Option<PositionModel>
    decreases ps.len() - k,
{
    if k < 0 || k >= ps.len() {
        None
    } else if ps[k].line == line && ps[k].start_col <= col <= ps[k].end_col {
        Some(ps[k])
    } else {
        position_at_from(ps, k + 1, line, col)
    }
}

pub fn id_at_position(content: &str, line_idx: usize, col: usize) -> (r: Option<MetadataIdPosition>)
    ensures
        r matches Some(p) ==> position_at_from(positions_of(content@), 0, line_idx as int, col as int) == Some(p@),
        r is None ==> position_at_from(positions_of(content@), 0, line_idx as int, col as int) is None,
{
    let ps = all_id_positions(content);
    let ghost pm = position_models(ps@);
    let mut k: usize = 0;
    while k < ps.len()
        invariant
            k <= ps.len(),
            pm == position_models(ps@),
            pm == positions_of(content@),
            position_at_from(pm, 0, line_idx as int, col as int) == position_at_from(pm, k as int, line_idx as int, col as int),
        decreases ps.len() - k,
    {
        let p = &ps[k];
        assert(pm[k as int] == p@);
        if p.range.line == line_idx && col >= p.range.start_col && col <= p.range.end_col {
            return Some(p.clone());
        }
        k += 1;
    }
    None
}

} // verus!
