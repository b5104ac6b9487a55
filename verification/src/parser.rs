//! Stateless parsing of Zettelkasten note headers and content.
use vstd::prelude::*;
use vstd::hash_map::StringHashMap;
use crate::text::{
    byte_offset, char_byte_len, chars_of, is_decimal_digit, lemma_line_end,
    lemma_utf8_len_subrange, lemma_utf8_len_take_succ, line_end, lines, lines_from,
    regex_decimal_digit, split_lines, str_byte_len, str_eq, string_from_chars,
    string_from_range, trim, trim_range, trim_start, utf8_len, views, ws_prefix_count,
    ws_prefix_len, is_ws, is_whitespace, ws_suffix_count, ws_suffix_len,
};

verus! {

// ---------------------------------------------------------------------------
// Checklist status and relation
// ---------------------------------------------------------------------------

#[derive(Debug, Clone, Copy, PartialEq, Eq, Structural)]
pub enum ChecklistStatus {
    NotApplicable,
    Todo,
    Wip,
    Done,
}

/// The canonical name of a checklist status.
pub open spec fn checklist_status_name(s: ChecklistStatus) -> Seq<char> {
    match s {
        ChecklistStatus::NotApplicable => "none"@,
        ChecklistStatus::Todo => "todo"@,
        ChecklistStatus::Wip => "wip"@,
        ChecklistStatus::Done => "done"@,
    }
}

/// The status whose canonical name is `v`.
pub open spec fn checklist_status_from_name(v: Seq<char>) -> Option<ChecklistStatus> {
    if v == "none"@ {
        Some(ChecklistStatus::NotApplicable)
    } else if v == "todo"@ {
        Some(ChecklistStatus::Todo)
    } else if v == "wip"@ {
        Some(ChecklistStatus::Wip)
    } else if v == "done"@ {
        Some(ChecklistStatus::Done)
    } else {
        None
    }
}

impl ChecklistStatus {
    pub const ALL: [ChecklistStatus; 4] = [
        ChecklistStatus::NotApplicable,
        ChecklistStatus::Todo,
        ChecklistStatus::Wip,
        ChecklistStatus::Done,
    ];

    /// Every status, in declaration order.
    pub fn all() -> (r: [Self; 4])
        ensures
            r@ == seq![ChecklistStatus::NotApplicable, ChecklistStatus::Todo, ChecklistStatus::Wip, ChecklistStatus::Done],
    {
        [Self::NotApplicable, Self::Todo, Self::Wip, Self::Done]
    }

    pub fn as_str(self) -> (r: &'static str)
        ensures
            r@ == checklist_status_name(self),
    {
        match self {
            Self::NotApplicable => "none",
            Self::Todo => "todo",
            Self::Wip => "wip",
            Self::Done => "done",
        }
    }

    pub fn from_str(value: &str) -> (r: Option<Self>)
        ensures
            r == checklist_status_from_name(value@),
    {
        if str_eq(value, "none") {
            Some(Self::NotApplicable)
        } else if str_eq(value, "todo") {
            Some(Self::Todo)
        } else if str_eq(value, "wip") {
            Some(Self::Wip)
        } else if str_eq(value, "done") {
            Some(Self::Done)
        } else {
            None
        }
    }
}

/// Parsing a status's name gives the status back.
pub proof fn lemma_checklist_status_roundtrip(s: ChecklistStatus)
    ensures
        checklist_status_from_name(checklist_status_name(s)) == Some(s),
{
    reveal_strlit("none");
    reveal_strlit("todo");
    reveal_strlit("wip");
    reveal_strlit("done");
    assert("none"@[0] != "todo"@[0]);
    assert("none"@.len() != "wip"@.len());
    assert("none"@[0] != "done"@[0]);
    assert("todo"@.len() != "wip"@.len());
    assert("todo"@[0] != "done"@[0]);
    assert("wip"@.len() != "done"@.len());
}

#[derive(Debug, Clone, Copy, PartialEq, Eq, Structural)]
pub enum Relation {
    Active,
    Archived,
    Legacy,
}

// ---------------------------------------------------------------------------
// Line shapes
// ---------------------------------------------------------------------------

/// `s` starts with `p`.
pub open spec fn starts_with(s: Seq<char>, p: Seq<char>) -> bool {
    p.len() <= s.len() && s.take(p.len() as int) == p
}

/// Byte width of the leading white space of `line`.
pub open spec fn indent_bytes(line: Seq<char>) -> nat {
    utf8_len(line.take(ws_prefix_len(line) as int))
}

/// A line whose trimmed text starts with "- [" and is at least 5 bytes long.
pub open spec fn is_todo_line(line: Seq<char>) -> bool {
    let t = trim_start(line);
    starts_with(t, seq!['-', ' ', '[']) && utf8_len(t) >= 5
}

/// The char after "- [" on a todo line.
pub open spec fn todo_state(line: Seq<char>) -> Option<char> {
    if is_todo_line(line) {
        Some(trim_start(line)[3])
    } else {
        None
    }
}

/// A code-fence line: trimmed text starting with three backticks.
pub open spec fn is_fence(line: Seq<char>) -> bool {
    starts_with(trim_start(line), seq!['`', '`', '`'])
}

/// Whether a code fence is open before line `i`.
pub open spec fn fence_open_before(ls: Seq<Seq<char>>, i: int) -> bool
    decreases i,
{
    if i <= 0 {
        false
    } else {
        fence_open_before(ls, i - 1) != is_fence(ls[i - 1])
    }
}

/// Line `i` is neither a fence line nor inside a fenced block.
pub open spec fn outside_fence(ls: Seq<Seq<char>>, i: int) -> bool {
    !is_fence(ls[i]) && !fence_open_before(ls, i)
}

/// A todo line is at least four chars long once trimmed.
pub proof fn lemma_todo_line_len(line: Seq<char>)
    requires
        is_todo_line(line),
    ensures
        trim_start(line).len() >= 4,
{
    let t = trim_start(line);
    if t.len() < 4 {
        reveal_with_fuel(utf8_len, 4);
        assert(t.len() == 3);
        assert(t.drop_first().drop_first().drop_first().len() == 0);
    }
}

pub fn starts_with_at(s: &Vec<char>, from: usize, p: &[char]) -> (r: bool)
    requires
        from <= s.len(),
    ensures
        r == starts_with(s@.skip(from as int), p@),
{
    let ghost t = s@.skip(from as int);
    if s.len() - from < p.len() {
        return false;
    }
    let mut k: usize = 0;
    while k < p.len()
        invariant
            from + p.len() <= s.len(),
            t == s@.skip(from as int),
            k <= p.len(),
            forall|j: int| 0 <= j < k ==> t[j] == p@[j],
        decreases p.len() - k,
    {
        if s[from + k] != p[k] {
            assert(t.take(p@.len() as int)[k as int] != p@[k as int]);
            return false;
        }
        k += 1;
    }
    assert(t.take(p@.len() as int) =~= p@);
    true
}

/// Byte width of `s[from..to]`, with the bound that it fits in a usize.
pub fn range_byte_len(s: &Vec<char>, from: usize, to: usize) -> (n: usize)
    requires
        from <= to <= s.len(),
        utf8_len(s@) <= usize::MAX,
    ensures
        n == utf8_len(s@.subrange(from as int, to as int)),
{
    let a = byte_offset(s, from);
    let b = byte_offset(s, to);
    proof {
        lemma_utf8_len_subrange(s@, from as int, to as int);
        lemma_utf8_len_subrange(s@, 0, to as int);
        assert(s@.subrange(0, to as int) =~= s@.take(to as int));
    }
    b - a
}

/// Whether `line` is a todo line (`is_todo_line`).
pub fn todo_line(line: &Vec<char>) -> (r: bool)
    requires
        utf8_len(line@) <= usize::MAX,
    ensures
        r == is_todo_line(line@),
{
    let w = ws_prefix_count(line, 0, line.len());
    proof {
        assert(line@.subrange(0, line@.len() as int) =~= line@);
        lemma_utf8_len_subrange(line@, w as int, line@.len() as int);
        assert(line@.subrange(w as int, line@.len() as int) =~= trim_start(line@));
    }
    if !starts_with_at(line, w, &['-', ' ', '[']) {
        return false;
    }
    let n = range_byte_len(line, w, line.len());
    n >= 5
}

/// Whether `line` is a fence line (`is_fence`).
pub fn fence_line(line: &Vec<char>) -> (r: bool)
    ensures
        r == is_fence(line@),
{
    let w = ws_prefix_count(line, 0, line.len());
    proof {
        assert(line@.subrange(0, line@.len() as int) =~= line@);
        assert(line@.skip(w as int) =~= trim_start(line@));
    }
    starts_with_at(line, w, &['`', '`', '`'])
}

// ---------------------------------------------------------------------------
// `@ID` and `<ID>` matches (regex `@(\d{10})` and `<(\d{10})>`)
// ---------------------------------------------------------------------------

/// A match of `@\d{10}` (or, with `closed`, of `<\d{10}>` when `open` is
/// `'<'`) starting at index `p` of `s`.
/// Length of a match: 11 chars for `@ID`, 12 for `<ID>`.
pub open spec fn match_len(closed: bool) -> int {
    if closed {
        12
    } else {
        11
    }
}

pub open spec fn id_match_at(s: Seq<char>, p: int, open: char, closed: bool) -> bool {
    let n = match_len(closed);
    &&& 0 <= p
    &&& p + n <= s.len()
    &&& s[p] == open
    &&& forall|k: int| 1 <= k <= 10 ==> is_decimal_digit(#[trigger] s[p + k])
    &&& closed ==> s[p + 11] == '>'
}

/// Start indices of the successive non-overlapping matches in `s[p..]`,
/// leftmost first, as the regex crate's `captures_iter` finds them.
pub open spec fn id_matches_from(s: Seq<char>, p: int, open: char, closed: bool) -> Seq<int>
    decreases s.len() - p,
{
    if p < 0 || p >= s.len() {
        seq![]
    } else if id_match_at(s, p, open, closed) {
        seq![p] + id_matches_from(s, p + match_len(closed), open, closed)
    } else {
        id_matches_from(s, p + 1, open, closed)
    }
}

pub open spec fn id_matches(s: Seq<char>, open: char, closed: bool) -> Seq<int> {
    id_matches_from(s, 0, open, closed)
}

/// The matches lie inside `s` and are ordered.
pub proof fn lemma_id_matches_from_bounds(s: Seq<char>, p: int, open: char, closed: bool)
    ensures
        forall|k: int|
            0 <= k < id_matches_from(s, p, open, closed).len() ==> {
                let q = #[trigger] id_matches_from(s, p, open, closed)[k];
                &&& p <= q
                &&& id_match_at(s, q, open, closed)
            },
    decreases s.len() - p,
{
    if p < 0 || p >= s.len() {
    } else if id_match_at(s, p, open, closed) {
        let n = match_len(closed);
        lemma_id_matches_from_bounds(s, p + n, open, closed);
        let r = id_matches_from(s, p, open, closed);
        assert forall|k: int| 0 <= k < r.len() implies {
            let q = #[trigger] r[k];
            &&& p <= q
            &&& id_match_at(s, q, open, closed)
        } by {
            if k > 0 {
                assert(r[k] == id_matches_from(s, p + n, open, closed)[k - 1]);
            }
        }
    } else {
        lemma_id_matches_from_bounds(s, p + 1, open, closed);
        let r = id_matches_from(s, p, open, closed);
        assert(r == id_matches_from(s, p + 1, open, closed));
        assert forall|k: int| 0 <= k < r.len() implies {
            let q = #[trigger] r[k];
            &&& p <= q
            &&& id_match_at(s, q, open, closed)
        } by {
            assert(r[k] == id_matches_from(s, p + 1, open, closed)[k]);
        }
    }
}

fn id_match_here(s: &Vec<char>, p: usize, open: char, closed: bool) -> (r: bool)
    ensures
        r == id_match_at(s@, p as int, open, closed),
{
    let n: usize = if closed {
        12
    } else {
        11
    };
    if p >= s.len() || s.len() - p < n || s[p] != open {
        return false;
    }
    let mut k: usize = 1;
    while k <= 10
        invariant
            1 <= k <= 11,
            p + n <= s.len(),
            n == (if closed { 12usize } else { 11usize }),
            forall|j: int| 1 <= j < k ==> is_decimal_digit(#[trigger] s@[p + j]),
        decreases 11 - k,
    {
        if !regex_decimal_digit(s[p + k]) {
            return false;
        }
        k += 1;
    }
    if closed && s[p + 11] != '>' {
        return false;
    }
    true
}

/// Start indices of all matches in `s`.
pub fn scan_id_matches(s: &Vec<char>, open: char, closed: bool) -> (r: Vec<usize>)
    ensures
        r@.map_values(|x: usize| x as int) == id_matches(s@, open, closed),
{
    let mut r: Vec<usize> = Vec::new();
    let mut p: usize = 0;
    while p < s.len()
        invariant
            p <= s.len(),
            id_matches(s@, open, closed) == r@.map_values(|x: usize| x as int) + id_matches_from(
                s@,
                p as int,
                open,
                closed,
            ),
        decreases s.len() - p,
    {
        let ghost before = r@;
        if id_match_here(s, p, open, closed) {
            r.push(p);
            assert(r@.map_values(|x: usize| x as int) =~= before.map_values(|x: usize| x as int)
                + seq![p as int]);
            if closed {
                p = p + 12;
            } else {
                p = p + 11;
            }
        } else {
            p = p + 1;
        }
    }
    assert(id_matches_from(s@, p as int, open, closed) =~= Seq::<int>::empty());
    r
}

/// The chars `v[from..to]` in a new vector.
pub fn subvec(v: &Vec<char>, from: usize, to: usize) -> (r: Vec<char>)
    requires
        from <= to <= v.len(),
    ensures
        r@ == v@.subrange(from as int, to as int),
{
    let mut r: Vec<char> = Vec::new();
    let mut i = from;
    while i < to
        invariant
            from <= i <= to <= v.len(),
            r@ == v@.subrange(from as int, i as int),
        decreases to - i,
    {
        r.push(v[i]);
        assert(v@.subrange(from as int, i + 1) =~= v@.subrange(from as int, i as int).push(
            v@[i as int],
        ));
        i += 1;
    }
    r
}


// ---------------------------------------------------------------------------
// Checklist item model
// ---------------------------------------------------------------------------

#[derive(Debug, Clone, PartialEq)]
pub struct RefTarget {
    pub target_id: String,
    /// Byte offset of '@' within the full line.
    pub byte_start: u32,
    /// Byte offset past the last digit.
    pub byte_end: u32,
}

#[derive(Debug, Clone, PartialEq)]
pub enum ChecklistItemKind {
    Local,
    Ref { targets: Vec<RefTarget> },
}

#[derive(Debug, Clone)]
pub struct ChecklistItem {
    pub checked: bool,
    pub kind: ChecklistItemKind,
    pub text: String,
    pub line_idx: usize,
    pub indent: usize,
}

/// A ref target as plain values.
pub struct TargetModel {
    pub id: Seq<char>,
    pub byte_start: u32,
    pub byte_end: u32,
}

/// A checklist item as plain values; `targets` is empty for a local item.
pub struct ItemModel {
    pub checked: bool,
    pub targets: Seq<TargetModel>,
    pub text: Seq<char>,
    pub line_idx: int,
    pub indent: int,
}

impl View for RefTarget {
    type V = TargetModel;

    open spec fn view(&self) -> TargetModel {
        TargetModel { id: self.target_id@, byte_start: self.byte_start, byte_end: self.byte_end }
    }
}

impl ChecklistItemKind {
    pub open spec fn target_models(&self) -> Seq<TargetModel> {
        match self {
            ChecklistItemKind::Local => seq![],
            ChecklistItemKind::Ref { targets } => targets@.map_values(|t: RefTarget| t@),
        }
    }
}

impl View for ChecklistItem {
    type V = ItemModel;

    open spec fn view(&self) -> ItemModel {
        ItemModel {
            checked: self.checked,
            targets: self.kind.target_models(),
            text: self.text@,
            line_idx: self.line_idx as int,
            indent: self.indent as int,
        }
    }
}

impl ChecklistItem {
    /// A ref item has at least one target.
    pub open spec fn wf(&self) -> bool {
        self.kind is Ref ==> self.kind.target_models().len() > 0
    }
}

/// The item models of a sequence of items.
pub open spec fn item_models(items: Seq<ChecklistItem>) -> Seq<ItemModel> {
    items.map_values(|i: ChecklistItem| i@)
}

/// A todo line whose marker is `x`, `X` or a space.
pub open spec fn is_checklist_line(line: Seq<char>) -> bool {
    is_todo_line(line) && {
        let m = trim_start(line)[3];
        m == 'x' || m == 'X' || m == ' '
    }
}

/// The char index of `s[i..]` at which byte offset `b` of `s` falls on a
/// char boundary, if it does.
pub open spec fn byte_index_from(s: Seq<char>, i: int, b: int) -> Option<int>
    decreases s.len() - i,
{
    if i < 0 || i > s.len() {
        None
    } else if utf8_len(s.take(i)) == b {
        Some(i)
    } else if utf8_len(s.take(i)) > b || i == s.len() {
        None
    } else {
        byte_index_from(s, i + 1, b)
    }
}

/// `trimmed.get(6..).unwrap_or("")`: the text after `- [x] `.
pub open spec fn item_body(t: Seq<char>) -> Seq<char> {
    match byte_index_from(t, 0, 6) {
        Some(k) => t.skip(k),
        None => seq![],
    }
}

/// The `@ID` targets of an item body that starts at byte `prefix` of its line.
pub open spec fn body_targets(body: Seq<char>, prefix: int) -> Seq<TargetModel> {
    id_matches(body, '@', false).map_values(
        |p: int|
            TargetModel {
                id: body.subrange(p + 1, p + 11),
                byte_start: (prefix + utf8_len(body.take(p))) as u32,
                byte_end: (prefix + utf8_len(body.take(p + 11))) as u32,
            },
    )
}

/// The checklist item that line `idx` holds.
pub open spec fn item_of_line(line: Seq<char>, idx: int) -> ItemModel {
    let t = trim_start(line);
    let m = t[3];
    let indent = indent_bytes(line) as int;
    let body = item_body(t);
    ItemModel {
        checked: m == 'x' || m == 'X',
        targets: body_targets(body, indent + 6),
        text: body,
        line_idx: idx,
        indent: indent,
    }
}

/// The checklist items of the first `n` lines.
pub open spec fn items_upto(ls: Seq<Seq<char>>, n: int) -> Seq<ItemModel>
    decreases n,
{
    if n <= 0 {
        seq![]
    } else {
        let prev = items_upto(ls, n - 1);
        if outside_fence(ls, n - 1) && is_checklist_line(ls[n - 1]) {
            prev.push(item_of_line(ls[n - 1], n - 1))
        } else {
            prev
        }
    }
}

/// The checklist items of `content`, fenced code blocks skipped.
pub open spec fn checklist_items(content: Seq<char>) -> Seq<ItemModel> {
    let ls = lines(content);
    items_upto(ls, ls.len() as int)
}

/// The char index (relative to `from`) where byte `b` of `s[from..]` starts.
fn byte_index(s: &Vec<char>, from: usize, b: usize) -> (r: Option<usize>)
    requires
        from <= s.len(),
    ensures
        r matches Some(k) ==> byte_index_from(s@.skip(from as int), 0, b as int) == Some(k as int)
            && from + k <= s.len(),
        r is None ==> byte_index_from(s@.skip(from as int), 0, b as int) is None,
{
    let ghost t = s@.skip(from as int);
    let mut i: usize = 0;
    let mut acc: usize = 0;
    assert(t.take(0) =~= Seq::<char>::empty());
    while acc < b && from + i < s.len()
        invariant
            t == s@.skip(from as int),
            from + i <= s.len(),
            acc == utf8_len(t.take(i as int)),
            acc <= b,
            byte_index_from(t, 0, b as int) == byte_index_from(t, i as int, b as int),
        decreases s.len() - from - i,
    {
        proof {
            lemma_utf8_len_take_succ(t, i as int);
        }
        let w = char_byte_len(s[from + i]);
        if b - acc < w {
            proof {
                assert(byte_index_from(t, i + 1, b as int) == None::<int>) by {
                    reveal_with_fuel(byte_index_from, 2);
                }
            }
            return None;
        }
        acc = acc + w;
        i = i + 1;
    }
    if acc == b {
        Some(i)
    } else {
        None
    }
}

/// The checklist item of line `idx`, when the line is a checklist line.
fn checklist_item_of(line: &Vec<char>, idx: usize) -> (r: Option<ChecklistItem>)
    requires
        utf8_len(line@) <= usize::MAX,
    ensures
        r is Some <==> is_checklist_line(line@),
        r matches Some(item) ==> item@ == item_of_line(line@, idx as int) && item.wf(),
{
    if !todo_line(line) {
        return None;
    }
    let w = ws_prefix_count(line, 0, line.len());
    proof {
        assert(line@.subrange(0, line@.len() as int) =~= line@);
        assert(line@.skip(w as int) =~= trim_start(line@));
        lemma_todo_line_len(line@);
    }
    let marker = line[w + 3];
    if marker != 'x' && marker != 'X' && marker != ' ' {
        return None;
    }
    let checked = marker == 'x' || marker == 'X';
    let indent = byte_offset(line, w);
    let ghost t = trim_start(line@);
    assert(t =~= line@.skip(w as int));
    let body = match byte_index(line, w, 6) {
        Some(k) => {
            let b = subvec(line, w + k, line.len());
            assert(b@ =~= t.skip(k as int));
            b
        },
        None => Vec::new(),
    };
    assert(body@ =~= item_body(t));
    proof {
        lemma_utf8_len_subrange(line@, (line@.len() - body@.len()) as int, line@.len() as int);
        assert(line@.subrange((line@.len() - body@.len()) as int, line@.len() as int) =~= body@)
            by {
            if body@.len() == 0 {
            }
        }
    }
    let positions = scan_id_matches(&body, '@', false);
    proof {
        lemma_id_matches_from_bounds(body@, 0, '@', false);
    }
    let ghost expected = body_targets(body@, indent + 6);
    let ghost pos = positions@.map_values(|x: usize| x as int);
    let mut targets: Vec<RefTarget> = Vec::new();
    let mut j: usize = 0;
    while j < positions.len()
        invariant
            j <= positions.len(),
            utf8_len(body@) <= usize::MAX,
            pos == positions@.map_values(|x: usize| x as int),
            pos == id_matches(body@, '@', false),
            forall|q: int| 0 <= q < pos.len() ==> id_match_at(body@, #[trigger] pos[q], '@', false),
            expected == body_targets(body@, indent + 6),
            targets@.map_values(|t: RefTarget| t@) == expected.take(j as int),
        decreases positions.len() - j,
    {
        let p = positions[j];
        assert(id_match_at(body@, pos[j as int], '@', false));
        let start = byte_offset(&body, p);
        let end = byte_offset(&body, p + 11);
        let id = string_from_range(&body, p + 1, p + 11);
        let bs = (indent as u128 + 6 + start as u128) as u32;
        let be = (indent as u128 + 6 + end as u128) as u32;
        let ghost before = targets@;
        targets.push(RefTarget { target_id: id, byte_start: bs, byte_end: be });
        assert(targets@.map_values(|t: RefTarget| t@) =~= before.map_values(|t: RefTarget| t@).push(
            expected[j as int],
        ));
        assert(expected.take(j + 1) =~= expected.take(j as int).push(expected[j as int]));
        j += 1;
    }
    assert(expected.take(positions.len() as int) =~= expected);
    let kind = if targets.len() == 0 {
        ChecklistItemKind::Local
    } else {
        ChecklistItemKind::Ref { targets }
    };
    let item = ChecklistItem {
        checked,
        kind,
        text: string_from_chars(&body),
        line_idx: idx,
        indent,
    };
    assert(item@.targets =~= item_of_line(line@, idx as int).targets);
    Some(item)
}

/// Parse all checklist items from `content`, skipping fenced code blocks.
/// Items with `@` and ten digits in their text become `Ref` items; all
/// others are `Local`. `RefTarget.byte_start`/`byte_end` are byte offsets of
/// `@ID` within the full line.
pub fn parse_checklist_items(content: &str) -> (items: Vec<ChecklistItem>)
    ensures
        item_models(items@) == checklist_items(content@),
        forall|k: int| 0 <= k < items.len() ==> (#[trigger] items@[k]).wf(),
{
    let cs = chars_of(content);
    let total = str_byte_len(content);
    let ls = split_lines(&cs);
    let ghost lv = lines(content@);
    let mut items: Vec<ChecklistItem> = Vec::new();
    let mut in_fence = false;
    let mut i: usize = 0;
    while i < ls.len()
        invariant
            i <= ls.len(),
            views(ls@) == lv,
            lv == lines(content@),
            total == utf8_len(content@),
            in_fence == fence_open_before(lv, i as int),
            item_models(items@) == items_upto(lv, i as int),
            forall|k: int| 0 <= k < items.len() ==> (#[trigger] items@[k]).wf(),
        decreases ls.len() - i,
    {
        let line = &ls[i];
        assert(line@ == lv[i as int]);
        proof {
            lemma_line_bytes(content@, i as int);
        }
        if fence_line(line) {
            in_fence = !in_fence;
        } else if !in_fence {
            match checklist_item_of(line, i) {
                Some(item) => {
                    let ghost before = items@;
                    items.push(item);
                    assert(item_models(items@) =~= item_models(before).push(item@));
                },
                None => {},
            }
        }
        i += 1;
    }
    items
}

/// Every line of `s` has at most as many bytes as `s`.
pub proof fn lemma_line_bytes(s: Seq<char>, i: int)
    requires
        0 <= i < lines(s).len(),
    ensures
        utf8_len(lines(s)[i]) <= utf8_len(s),
{
    lemma_lines_from_bytes(s, 0, i);
}

proof fn lemma_lines_from_bytes(s: Seq<char>, from: int, i: int)
    requires
        0 <= from,
        0 <= i < lines_from(s, from).len(),
    ensures
        exists|a: int, b: int|
            0 <= a <= b <= s.len() && lines_from(s, from)[i] == #[trigger] s.subrange(a, b),
        utf8_len(lines_from(s, from)[i]) <= utf8_len(s),
    decreases s.len() - from,
{
    lemma_line_end(s, from);
    let e = line_end(s, from);
    let raw = s.subrange(from, e);
    if i == 0 {
        let l = lines_from(s, from)[0];
        if e < s.len() && raw.len() > 0 && raw.last() == '\r' {
            assert(l =~= s.subrange(from, e - 1));
            lemma_utf8_len_subrange(s, from, e - 1);
        } else {
            assert(l =~= s.subrange(from, e));
            lemma_utf8_len_subrange(s, from, e);
        }
    } else {
        lemma_lines_from_bytes(s, e + 1, i - 1);
        assert(lines_from(s, from)[i] == lines_from(s, e + 1)[i - 1]);
    }
}


// ---------------------------------------------------------------------------
// Note completion
// ---------------------------------------------------------------------------

/// A dependency counts as done when the lookup holds it with `true`.
pub open spec fn dep_done(m: Map<Seq<char>, bool>, id: Seq<char>) -> bool {
    m.contains_key(id) && m[id]
}

/// The semantic truth of one item: a local item is its checkbox, a ref
/// item holds when every target is done.
pub open spec fn item_truth(item: ChecklistItem, m: Map<Seq<char>, bool>) -> bool {
    if item.kind is Local {
        item.checked
    } else {
        forall|k: int|
            0 <= k < item.kind->targets@.len() ==> dep_done(
                m,
                #[trigger] item.kind->targets@[k].target_id@,
            )
    }
}

/// Item `i` has no following item with a strictly greater indent.
pub open spec fn is_leaf_at(items: Seq<ChecklistItem>, i: int) -> bool {
    i + 1 >= items.len() || items[i + 1].indent <= items[i].indent
}

/// A note is done when it has items and every leaf item holds.
pub open spec fn items_done(items: Seq<ChecklistItem>, m: Map<Seq<char>, bool>) -> bool {
    items.len() > 0 && forall|i: int|
        0 <= i < items.len() && is_leaf_at(items, i) ==> item_truth(#[trigger] items[i], m)
}

/// Evaluate the semantic truth of a single checklist item.
/// `Local` items: truth = checkbox state.
/// `Ref` items: every target is done in `done_lookup`; never the rendered
/// checkbox.
pub fn eval_item_truth(item: &ChecklistItem, done_lookup: &StringHashMap<bool>) -> (r: bool)
    ensures
        r == item_truth(*item, done_lookup@),
{
    match &item.kind {
        ChecklistItemKind::Local => item.checked,
        ChecklistItemKind::Ref { targets } => {
            let mut k: usize = 0;
            while k < targets.len()
                invariant
                    k <= targets.len(),
                    item.kind == (ChecklistItemKind::Ref { targets: *targets }),
                    forall|j: int|
                        0 <= j < k ==> dep_done(done_lookup@, #[trigger] targets@[j].target_id@),
                decreases targets.len() - k,
            {
                let done = match done_lookup.get(targets[k].target_id.as_str()) {
                    Some(b) => *b,
                    None => false,
                };
                if !done {
                    assert(!dep_done(done_lookup@, targets@[k as int].target_id@));
                    assert(item.kind->targets == *targets);
                    assert(!dep_done(done_lookup@, item.kind->targets@[k as int].target_id@));
                    return false;
                }
                k += 1;
            }
            true
        },
    }
}

fn is_leaf(items: &[ChecklistItem], idx: usize) -> (r: bool)
    requires
        idx < items@.len(),
    ensures
        r == is_leaf_at(items@, idx as int),
{
    idx >= items.len() - 1 || items[idx + 1].indent <= items[idx].indent
}

/// Compute whether a note is done based on its checklist items and the
/// done states of its dependencies.
///
/// Only **leaf items** participate: a leaf is an item with no subsequent item
/// with strictly greater indent before the next same-or-lesser-indent item.
/// If there are no items, returns `false` (caller should check metadata
/// separately).
pub fn compute_note_done_from_items(items: &[ChecklistItem], done_lookup: &StringHashMap<bool>) -> (r: bool)
    ensures
        r == items_done(items@, done_lookup@),
{
    if items.len() == 0 {
        return false;
    }
    let mut i: usize = 0;
    while i < items.len()
        invariant
            i <= items@.len(),
            forall|j: int|
                0 <= j < i && is_leaf_at(items@, j) ==> item_truth(#[trigger] items@[j], done_lookup@),
        decreases items@.len() - i,
    {
        if is_leaf(items, i) && !eval_item_truth(&items[i], done_lookup) {
            return false;
        }
        i += 1;
    }
    true
}

// ---------------------------------------------------------------------------
// UTF-16 positions
// ---------------------------------------------------------------------------

/// Number of UTF-16 code units of `c`.
pub open spec fn char_utf16_len(c: char) -> nat {
    if (c as u32) < 0x10000 {
        1
    } else {
        2
    }
}

/// Number of UTF-16 code units of `s`.
pub open spec fn utf16_len(s: Seq<char>) -> nat
    decreases s.len(),
{
    if s.len() == 0 {
        0
    } else {
        char_utf16_len(s[0]) + utf16_len(s.drop_first())
    }
}

proof fn lemma_utf16_len_concat(a: Seq<char>, b: Seq<char>)
    ensures
        utf16_len(a + b) == utf16_len(a) + utf16_len(b),
    decreases a.len(),
{
    if a.len() == 0 {
        assert(a + b =~= b);
    } else {
        assert((a + b).drop_first() =~= a.drop_first() + b);
        lemma_utf16_len_concat(a.drop_first(), b);
    }
}

pub proof fn lemma_utf16_len_take_succ(s: Seq<char>, i: int)
    requires
        0 <= i < s.len(),
    ensures
        utf16_len(s.take(i + 1)) == utf16_len(s.take(i)) + char_utf16_len(s[i]),
{
    assert(s.take(i + 1) =~= s.take(i) + seq![s[i]]);
    lemma_utf16_len_concat(s.take(i), seq![s[i]]);
    assert(seq![s[i]].drop_first() =~= Seq::<char>::empty());
    reveal_with_fuel(utf16_len, 2);
}

proof fn lemma_utf16_len_mono(s: Seq<char>, i: int, j: int)
    requires
        0 <= i <= j <= s.len(),
    ensures
        utf16_len(s.take(i)) <= utf16_len(s.take(j)),
{
    assert(s.take(j) =~= s.take(i) + s.subrange(i, j));
    lemma_utf16_len_concat(s.take(i), s.subrange(i, j));
}

/// Convert a byte offset within `s` to a UTF-16 code-unit offset.
/// LSP `character` positions are UTF-16 code units, not bytes or scalar
/// values. The offset must fall on a char boundary of `s`.
pub fn byte_to_utf16(s: &str, byte_offset: usize) -> (r: u32)
    requires
        byte_index_from(s@, 0, byte_offset as int) is Some,
        utf16_len(s@.take(byte_index_from(s@, 0, byte_offset as int)->0)) <= u32::MAX,
    ensures
        r == utf16_len(s@.take(byte_index_from(s@, 0, byte_offset as int)->0)),
{
    let cs = chars_of(s);
    let ghost k = byte_index_from(s@, 0, byte_offset as int)->0;
    let mut i: usize = 0;
    let mut acc: usize = 0;
    let mut units: u32 = 0;
    assert(cs@.take(0) =~= Seq::<char>::empty());
    while acc < byte_offset && i < cs.len()
        invariant
            cs@ == s@,
            i <= cs.len(),
            acc == utf8_len(cs@.take(i as int)),
            acc <= byte_offset,
            units == utf16_len(cs@.take(i as int)),
            byte_index_from(s@, 0, byte_offset as int) == byte_index_from(s@, i as int, byte_offset as int),
            byte_index_from(s@, 0, byte_offset as int) == Some(k),
            utf16_len(s@.take(k)) <= u32::MAX,
        decreases cs.len() - i,
    {
        proof {
            lemma_utf8_len_take_succ(cs@, i as int);
            lemma_utf16_len_take_succ(cs@, i as int);
        }
        let w = char_byte_len(cs[i]);
        if byte_offset - acc < w {
            proof {
                assert(byte_index_from(s@, i + 1, byte_offset as int) == None::<int>) by {
                    reveal_with_fuel(byte_index_from, 2);
                }
            }
            assert(false);
            return 0;
        }
        proof {
            lemma_byte_index_from_ge(s@, i + 1, byte_offset as int);
            lemma_utf16_len_mono(s@, i + 1, k);
        }
        acc = acc + w;
        let u: u32 = if (cs[i] as u32) < 0x10000 { 1 } else { 2 };
        units = units + u;
        i = i + 1;
    }
    units
}

proof fn lemma_byte_index_from_ge(s: Seq<char>, i: int, b: int)
    requires
        byte_index_from(s, i, b) is Some,
    ensures
        i <= byte_index_from(s, i, b)->0 <= s.len(),
    decreases s.len() - i,
{
    if i < 0 || i > s.len() {
    } else if utf8_len(s.take(i)) == b {
    } else if utf8_len(s.take(i)) > b || i == s.len() {
    } else {
        lemma_byte_index_from_ge(s, i + 1, b);
    }
}

// ---------------------------------------------------------------------------
// `@ID` occurrences
// ---------------------------------------------------------------------------

#[derive(Debug, Clone)]
pub struct RefOccurrence {
    pub id: String,
    pub line: u32,
    pub start_char: u32,
    pub end_char: u32,
}

/// An occurrence as plain values.
pub struct RefModel {
    pub id: Seq<char>,
    pub line: u32,
    pub start_char: u32,
    pub end_char: u32,
}

impl View for RefOccurrence {
    type V = RefModel;

    open spec fn view(&self) -> RefModel {
        RefModel { id: self.id@, line: self.line, start_char: self.start_char, end_char: self.end_char }
    }
}

pub open spec fn ref_models(v: Seq<RefOccurrence>) -> Seq<RefModel> {
    v.map_values(|r: RefOccurrence| r@)
}

/// The `@ID` occurrences inside chars `a..b` of line `line_idx`; offsets are
/// bytes within the line.
pub open spec fn segment_refs(line: Seq<char>, a: int, b: int, line_idx: int) -> Seq<RefModel> {
    let seg = line.subrange(a, b);
    let base = utf8_len(line.take(a));
    id_matches(seg, '@', false).map_values(
        |p: int|
            RefModel {
                id: seg.subrange(p + 1, p + 11),
                line: line_idx as u32,
                start_char: (base + utf8_len(seg.take(p))) as u32,
                end_char: (base + utf8_len(seg.take(p + 11))) as u32,
            },
    )
}

/// Appends the occurrences of `line[a..b]` to `out`.
fn push_segment_refs(line: &Vec<char>, a: usize, b: usize, line_idx: usize, out: &mut Vec<RefOccurrence>)
    requires
        a <= b <= line.len(),
        utf8_len(line@) <= usize::MAX,
    ensures
        ref_models(final(out)@) == ref_models(old(out)@) + segment_refs(line@, a as int, b as int, line_idx as int),
{
    let seg = subvec(line, a, b);
    let base = byte_offset(line, a);
    proof {
        lemma_utf8_len_subrange(line@, a as int, b as int);
        lemma_id_matches_from_bounds(seg@, 0, '@', false);
    }
    let positions = scan_id_matches(&seg, '@', false);
    let ghost pos = positions@.map_values(|x: usize| x as int);
    let ghost expected = segment_refs(line@, a as int, b as int, line_idx as int);
    let ghost start = ref_models(out@);
    let mut j: usize = 0;
    while j < positions.len()
        invariant
            j <= positions.len(),
            utf8_len(seg@) <= usize::MAX,
            seg@ == line@.subrange(a as int, b as int),
            base == utf8_len(line@.take(a as int)),
            pos == positions@.map_values(|x: usize| x as int),
            pos == id_matches(seg@, '@', false),
            forall|q: int| 0 <= q < pos.len() ==> id_match_at(seg@, #[trigger] pos[q], '@', false),
            expected == segment_refs(line@, a as int, b as int, line_idx as int),
            ref_models(out@) == start + expected.take(j as int),
        decreases positions.len() - j,
    {
        let p = positions[j];
        assert(id_match_at(seg@, pos[j as int], '@', false));
        let s0 = byte_offset(&seg, p);
        let s1 = byte_offset(&seg, p + 11);
        let id = string_from_range(&seg, p + 1, p + 11);
        let occ = RefOccurrence {
            id,
            line: line_idx as u32,
            start_char: (base as u128 + s0 as u128) as u32,
            end_char: (base as u128 + s1 as u128) as u32,
        };
        let ghost before = out@;
        out.push(occ);
        assert(ref_models(out@) =~= ref_models(before).push(expected[j as int]));
        assert(expected.take(j + 1) =~= expected.take(j as int).push(expected[j as int]));
        j += 1;
    }
    assert(expected.take(positions.len() as int) =~= expected);
}

/// The occurrences of the first `n` lines.
pub open spec fn refs_upto(ls: Seq<Seq<char>>, n: int) -> Seq<RefModel>
    decreases n,
{
    if n <= 0 {
        seq![]
    } else {
        refs_upto(ls, n - 1) + segment_refs(ls[n - 1], 0, ls[n - 1].len() as int, n - 1)
    }
}

/// Find all `@ID` occurrences in content (10-digit IDs).
/// `start_char` / `end_char` are **byte** offsets within the line (not
/// UTF-16). Convert with `byte_to_utf16` before using as LSP character
/// positions.
pub fn find_all_refs(content: &str) -> (refs: Vec<RefOccurrence>)
    ensures
        ref_models(refs@) == refs_upto(lines(content@), lines(content@).len() as int),
{
    let cs = chars_of(content);
    let total = str_byte_len(content);
    let ls = split_lines(&cs);
    let ghost lv = lines(content@);
    let mut refs: Vec<RefOccurrence> = Vec::new();
    let mut i: usize = 0;
    while i < ls.len()
        invariant
            i <= ls.len(),
            views(ls@) == lv,
            lv == lines(content@),
            total == utf8_len(content@),
            ref_models(refs@) == refs_upto(lv, i as int),
        decreases ls.len() - i,
    {
        let line = &ls[i];
        assert(line@ == lv[i as int]);
        proof {
            lemma_line_bytes(content@, i as int);
        }
        push_segment_refs(line, 0, line.len(), i, &mut refs);
        i += 1;
    }
    refs
}


// ---------------------------------------------------------------------------
// Header and metadata binding
// ---------------------------------------------------------------------------

#[derive(Debug, Clone)]
pub struct MetadataBinding {
    pub line_idx: usize,
    pub id: String,
}

#[derive(Debug, Clone)]
pub struct NoteHeader {
    pub id: String,
    pub title: String,
    /// 0-based.
    pub title_line_idx: usize,
}

/// The first index at or after `i` that is not white space.
pub open spec fn skip_ws(s: Seq<char>, i: int) -> int {
    i + ws_prefix_len(s.skip(i))
}

/// `s[i..]` starts with `lit`.
pub open spec fn lit_at(s: Seq<char>, i: int, lit: Seq<char>) -> bool {
    0 <= i <= s.len() && starts_with(s.skip(i), lit)
}

/// Ten `\d` chars at `s[i..i + 10]`.
pub open spec fn ten_digits_at(s: Seq<char>, i: int) -> bool {
    0 <= i && i + 10 <= s.len() && forall|k: int| i <= k < i + 10 ==> is_decimal_digit(#[trigger] s[k])
}

/// The ID of a line matching
/// `^\s*#let\s+zk-metadata\s*=\s*zk_metadata\("(\d{10})"\)\s*$`.
pub open spec fn binding_id(line: Seq<char>) -> Option<Seq<char>> {
    let a = skip_ws(line, 0);
    let b = a + 4;
    let c = skip_ws(line, b);
    let d = c + 11;
    let e = skip_ws(line, d);
    let f = e + 1;
    let g = skip_ws(line, f);
    let h = g + 13;
    let i = h + 10;
    let j = i + 2;
    if lit_at(line, a, seq!['#', 'l', 'e', 't']) && c > b && lit_at(
        line,
        c,
        seq!['z', 'k', '-', 'm', 'e', 't', 'a', 'd', 'a', 't', 'a'],
    ) && e < line.len() && line[e] == '=' && lit_at(
        line,
        g,
        seq!['z', 'k', '_', 'm', 'e', 't', 'a', 'd', 'a', 't', 'a', '(', '"'],
    ) && ten_digits_at(line, h) && lit_at(line, i, seq!['"', ')']) && skip_ws(line, j)
        == line.len() {
        Some(line.subrange(h, i))
    } else {
        None
    }
}

/// Indices of the lines among the first `n` that hold a binding.
pub open spec fn binding_lines(ls: Seq<Seq<char>>, n: int) -> Seq<int>
    decreases n,
{
    if n <= 0 {
        seq![]
    } else if binding_id(ls[n - 1]) is Some {
        binding_lines(ls, n - 1).push(n - 1)
    } else {
        binding_lines(ls, n - 1)
    }
}

/// The unique binding line of `content` and its ID; none when there are
/// zero or several.
pub open spec fn metadata_binding(content: Seq<char>) -> Option<(int, Seq<char>)> {
    let ls = lines(content);
    let bl = binding_lines(ls, ls.len() as int);
    if bl.len() == 1 {
        Some((bl[0], binding_id(ls[bl[0]])->0))
    } else {
        None
    }
}

fn skip_ws_exec(s: &Vec<char>, i: usize) -> (r: usize)
    requires
        i <= s.len(),
    ensures
        r == skip_ws(s@, i as int),
        i <= r <= s.len(),
{
    let n = ws_prefix_count(s, i, s.len());
    assert(s@.subrange(i as int, s@.len() as int) =~= s@.skip(i as int));
    i + n
}

fn lit_at_exec(s: &Vec<char>, i: usize, lit: &[char]) -> (r: bool)
    ensures
        r == lit_at(s@, i as int, lit@),
{
    if i > s.len() {
        return false;
    }
    starts_with_at(s, i, lit)
}

fn ten_digits_exec(s: &Vec<char>, i: usize) -> (r: bool)
    ensures
        r == ten_digits_at(s@, i as int),
{
    if i > s.len() || s.len() - i < 10 {
        return false;
    }
    let mut k = i;
    while k < i + 10
        invariant
            i <= k <= i + 10 <= s.len(),
            forall|j: int| i <= j < k ==> is_decimal_digit(#[trigger] s@[j]),
        decreases i + 10 - k,
    {
        if !regex_decimal_digit(s[k]) {
            return false;
        }
        k += 1;
    }
    true
}

/// The binding ID of one line.
pub fn line_binding_id(line: &Vec<char>) -> (r: Option<String>)
    ensures
        r matches Some(id) ==> binding_id(line@) == Some(id@),
        r is None ==> binding_id(line@) is None,
{
    let n = line.len();
    let a = skip_ws_exec(line, 0);
    if !lit_at_exec(line, a, &['#', 'l', 'e', 't']) {
        return None;
    }
    let b = a + 4;
    let c = skip_ws_exec(line, b);
    if c <= b || !lit_at_exec(line, c, &['z', 'k', '-', 'm', 'e', 't', 'a', 'd', 'a', 't', 'a']) {
        return None;
    }
    let d = c + 11;
    let e = skip_ws_exec(line, d);
    if e >= n || line[e] != '=' {
        return None;
    }
    let f = e + 1;
    let g = skip_ws_exec(line, f);
    if !lit_at_exec(line, g, &['z', 'k', '_', 'm', 'e', 't', 'a', 'd', 'a', 't', 'a', '(', '"']) {
        return None;
    }
    let h = g + 13;
    if !ten_digits_exec(line, h) {
        return None;
    }
    let i = h + 10;
    if !lit_at_exec(line, i, &['"', ')']) {
        return None;
    }
    let j = i + 2;
    if skip_ws_exec(line, j) != n {
        return None;
    }
    Some(string_from_range(line, h, i))
}

/// Scan `content` for a canonical central metadata binding:
/// `#let zk-metadata = zk_metadata("ID")`. Zero or several such lines give
/// `None`.
pub fn find_metadata_binding(content: &str) -> (r: Option<MetadataBinding>)
    ensures
        r matches Some(b) ==> metadata_binding(content@) == Some((b.line_idx as int, b.id@)),
        r is None ==> metadata_binding(content@) is None,
{
    let cs = chars_of(content);
    let ls = split_lines(&cs);
    find_binding_in_lines(&ls)
}

fn find_binding_in_lines(ls: &Vec<Vec<char>>) -> (r: Option<MetadataBinding>)
    ensures
        ({
            let v = views(ls@);
            let bl = binding_lines(v, v.len() as int);
            &&& r matches Some(b) ==> bl.len() == 1 && bl[0] == b.line_idx && binding_id(v[bl[0]]) == Some(b.id@)
            &&& r is None ==> bl.len() != 1
        }),
{
    let ghost v = views(ls@);
    let mut found: Option<MetadataBinding> = None;
    let mut i: usize = 0;
    while i < ls.len()
        invariant
            i <= ls.len(),
            v == views(ls@),
            ({
                let bl = binding_lines(v, i as int);
                &&& found matches Some(b) ==> bl.len() == 1 && bl[0] == b.line_idx && binding_id(v[bl[0]]) == Some(b.id@)
                &&& found is None ==> bl.len() == 0
            }),
        decreases ls.len() - i,
    {
        assert(ls@[i as int]@ == v[i as int]);
        match line_binding_id(&ls[i]) {
            Some(id) => {
                if found.is_some() {
                    proof {
                        lemma_binding_lines_grow(v, i as int + 1, ls.len() as int);
                    }
                    return None;
                }
                found = Some(MetadataBinding { line_idx: i, id });
            },
            None => {},
        }
        i += 1;
    }
    found
}

proof fn lemma_binding_lines_grow(v: Seq<Seq<char>>, a: int, b: int)
    requires
        0 <= a <= b <= v.len(),
    ensures
        binding_lines(v, a).len() <= binding_lines(v, b).len(),
        forall|k: int| 0 <= k < binding_lines(v, a).len() ==> binding_lines(v, b)[k] == #[trigger] binding_lines(v, a)[k],
    decreases b - a,
{
    if a < b {
        lemma_binding_lines_grow(v, a, b - 1);
    }
}

/// The start of the last `<\d{10}>` match at index at least 2 and at most
/// `q`.
pub open spec fn last_angle_at_most(s: Seq<char>, q: int) -> Option<int>
    decreases q,
{
    if q < 2 {
        None
    } else if id_match_at(s, q, '<', true) {
        Some(q)
    } else {
        last_angle_at_most(s, q - 1)
    }
}

/// For a line matching `^=\s+.*<(\d{10})>`, the index of the `<` that the
/// greedy `.*` leaves: the last such match.
pub open spec fn title_pos(line: Seq<char>) -> Option<int> {
    if line.len() >= 2 && line[0] == '=' && is_ws(line[1]) {
        last_angle_at_most(line, line.len() - 12)
    } else {
        None
    }
}

/// The first title line at or after `i`.
pub open spec fn first_title_line(ls: Seq<Seq<char>>, i: int) -> Option<int>
    decreases ls.len() - i,
{
    if i < 0 || i >= ls.len() {
        None
    } else if title_pos(ls[i]) is Some {
        Some(i)
    } else {
        first_title_line(ls, i + 1)
    }
}

/// A parsed header as plain values.
pub struct HeaderModel {
    pub id: Seq<char>,
    pub title: Seq<char>,
    pub title_line_idx: int,
}

impl View for NoteHeader {
    type V = HeaderModel;

    open spec fn view(&self) -> HeaderModel {
        HeaderModel { id: self.id@, title: self.title@, title_line_idx: self.title_line_idx as int }
    }
}

/// The first title line of `ls`.
pub(crate) fn first_title_exec(ls: &Vec<Vec<char>>) -> (r: Option<usize>)
    ensures
        r matches Some(t) ==> first_title_line(views(ls@), 0) == Some(t as int) && t < ls.len(),
        r is None ==> first_title_line(views(ls@), 0) is None,
{
    let ghost v = views(ls@);
    let mut t: usize = 0;
    while t < ls.len()
        invariant
            t <= ls.len(),
            v == views(ls@),
            first_title_line(v, 0) == first_title_line(v, t as int),
        decreases ls.len() - t,
    {
        assert(ls@[t as int]@ == v[t as int]);
        if title_pos_exec(&ls[t]).is_some() {
            return Some(t);
        }
        t += 1;
    }
    None
}

/// The header of a central-metadata note: the first title line gives the
/// ID and the title, and the note must hold exactly one binding, above the
/// title, with the same ID.
pub open spec fn note_header(content: Seq<char>) -> Option<HeaderModel> {
    let ls = lines(content);
    match first_title_line(ls, 0) {
        None => None,
        Some(t) => {
            let line = ls[t];
            let q = title_pos(line)->0;
            let id = line.subrange(q + 1, q + 11);
            let title = trim(line.subrange(1, q));
            match metadata_binding(content) {
                None => None,
                Some((bi, bid)) => if bi >= t || bid != id {
                    None
                } else {
                    Some(HeaderModel { id, title, title_line_idx: t })
                },
            }
        },
    }
}

fn title_pos_exec(line: &Vec<char>) -> (r: Option<usize>)
    ensures
        r matches Some(q) ==> title_pos(line@) == Some(q as int),
        r is None ==> title_pos(line@) is None,
{
    if line.len() < 2 || line[0] != '=' || !is_whitespace(line[1]) {
        return None;
    }
    if line.len() < 14 {
        proof {
            reveal_with_fuel(last_angle_at_most, 3);
        }
        return None;
    }
    let mut q = line.len() - 12;
    while q >= 2
        invariant
            q <= line.len() - 12,
            line.len() >= 14,
            title_pos(line@) == last_angle_at_most(line@, q as int),
        decreases q,
    {
        if id_match_here(line, q, '<', true) {
            return Some(q);
        }
        q -= 1;
    }
    None
}

/// Parse the structural header of a central-metadata note.
pub fn parse_header(content: &str) -> (r: Option<NoteHeader>)
    ensures
        r matches Some(h) ==> note_header(content@) == Some(h@),
        r is None ==> note_header(content@) is None,
{
    let cs = chars_of(content);
    let ls = split_lines(&cs);
    let ghost v = views(ls@);
    let mut t: usize = 0;
    let mut q: usize = 0;
    let mut found = false;
    while t < ls.len() && !found
        invariant
            t <= ls.len(),
            v == views(ls@),
            !found ==> first_title_line(v, 0) == first_title_line(v, t as int),
            found ==> t < ls.len() && first_title_line(v, 0) == Some(t as int) && title_pos(v[t as int]) == Some(q as int),
        decreases ls.len() - t, if found { 0int } else { 1int },
    {
        assert(ls@[t as int]@ == v[t as int]);
        match title_pos_exec(&ls[t]) {
            Some(p) => {
                q = p;
                found = true;
            },
            None => {
                t += 1;
            },
        }
    }
    if !found {
        return None;
    }
    let line = &ls[t];
    assert(line@ == v[t as int]);
    proof {
        reveal_with_fuel(last_angle_at_most, 1);
        lemma_last_angle_bounds(line@, line@.len() - 12);
    }
    let id = string_from_range(line, q + 1, q + 11);
    let (a, b) = trim_range(line, 1, q);
    let title = string_from_range(line, a, b);
    match find_binding_in_lines(&ls) {
        None => None,
        Some(binding) => {
            if binding.line_idx >= t || !str_eq(binding.id.as_str(), id.as_str()) {
                None
            } else {
                Some(NoteHeader { id, title, title_line_idx: t })
            }
        },
    }
}

proof fn lemma_last_angle_bounds(s: Seq<char>, q: int)
    ensures
        last_angle_at_most(s, q) matches Some(p) ==> 2 <= p <= q && id_match_at(s, p, '<', true),
    decreases q,
{
    if q >= 2 && !id_match_at(s, q, '<', true) {
        lemma_last_angle_bounds(s, q - 1);
    }
}


// ---------------------------------------------------------------------------
// Comment- and fence-aware scanning
// ---------------------------------------------------------------------------

/// `s[i..].find(pat)`, as an index into `s`.
pub open spec fn find_from(s: Seq<char>, i: int, pat: Seq<char>) -> Option<int>
    decreases s.len() - i,
{
    if i < 0 || i >= s.len() || i + pat.len() > s.len() {
        None
    } else if starts_with(s.skip(i), pat) {
        Some(i)
    } else {
        find_from(s, i + 1, pat)
    }
}

pub proof fn lemma_find_from(s: Seq<char>, i: int, pat: Seq<char>)
    ensures
        find_from(s, i, pat) matches Some(j) ==> i <= j && j + pat.len() <= s.len() && starts_with(
            s.skip(j),
            pat,
        ),
    decreases s.len() - i,
{
    if !(i < 0 || i >= s.len() || i + pat.len() > s.len()) && !starts_with(s.skip(i), pat) {
        lemma_find_from(s, i + 1, pat);
    }
}

pub open spec fn open_comment() -> Seq<char> {
    seq!['/', '*']
}

pub open spec fn close_comment() -> Seq<char> {
    seq!['*', '/']
}

pub open spec fn fence_mark() -> Seq<char> {
    seq!['`', '`', '`']
}

/// The visible char ranges of `line[pos..]` outside `/* */` comments, and
/// whether a comment is still open at the end of the line.
pub open spec fn comment_segments(line: Seq<char>, pos: int) -> (Seq<(int, int)>, bool)
    decreases line.len() - pos,
    via comment_segments_decreases
{
    if pos < 0 || pos > line.len() {
        (seq![], false)
    } else {
        match find_from(line, pos, open_comment()) {
            None => (seq![(pos, line.len() as int)], false),
            Some(b) => match find_from(line, b + 2, close_comment()) {
                None => (seq![(pos, b)], true),
                Some(e) => {
                    let r = comment_segments(line, e + 2);
                    (seq![(pos, b)] + r.0, r.1)
                },
            },
        }
    }
}

#[via_fn]
proof fn comment_segments_decreases(line: Seq<char>, pos: int) {
    lemma_find_from(line, pos, open_comment());
    if let Some(b) = find_from(line, pos, open_comment()) {
        lemma_find_from(line, b + 2, close_comment());
    }
}

/// The occurrences in a list of ranges of `line`.
pub open spec fn segs_refs(line: Seq<char>, segs: Seq<(int, int)>, idx: int) -> Seq<RefModel>
    decreases segs.len(),
{
    if segs.len() == 0 {
        seq![]
    } else {
        segs_refs(line, segs.drop_last(), idx) + segment_refs(
            line,
            segs.last().0,
            segs.last().1,
            idx,
        )
    }
}

/// The occurrences of one line given the comment and fence state before
/// it, with the state after it.
pub open spec fn filtered_line(line: Seq<char>, idx: int, bc: bool, fence: bool) -> (
    Seq<RefModel>,
    bool,
    bool,
) {
    if bc {
        match find_from(line, 0, close_comment()) {
            None => (seq![], true, fence),
            Some(e) => {
                let r = comment_segments(line, e + 2);
                (segs_refs(line, r.0, idx), r.1, fence)
            },
        }
    } else if is_fence(line) {
        (seq![], false, !fence)
    } else if fence {
        (seq![], false, true)
    } else {
        let r = comment_segments(line, 0);
        (segs_refs(line, r.0, idx), r.1, false)
    }
}

/// The occurrences of the first `n` lines, and the state after them.
pub open spec fn filtered_upto(ls: Seq<Seq<char>>, n: int) -> (Seq<RefModel>, bool, bool)
    decreases n,
{
    if n <= 0 {
        (seq![], false, false)
    } else {
        let p = filtered_upto(ls, n - 1);
        let r = filtered_line(ls[n - 1], n - 1, p.1, p.2);
        (p.0 + r.0, r.1, r.2)
    }
}

/// The `@ID` occurrences of `content` outside block comments and fenced
/// code blocks.
pub open spec fn filtered_refs(content: Seq<char>) -> Seq<RefModel> {
    let ls = lines(content);
    filtered_upto(ls, ls.len() as int).0
}

fn find_pat(s: &Vec<char>, i: usize, pat: &[char]) -> (r: Option<usize>)
    requires
        i <= s.len(),
        pat@.len() > 0,
    ensures
        r matches Some(j) ==> find_from(s@, i as int, pat@) == Some(j as int) && i <= j && j
            + pat@.len() <= s.len(),
        r is None ==> find_from(s@, i as int, pat@) is None,
{
    let mut j = i;
    while j < s.len() && s.len() - j >= pat.len()
        invariant
            i <= j <= s.len(),
            find_from(s@, i as int, pat@) == find_from(s@, j as int, pat@),
        decreases s.len() - j,
    {
        if starts_with_at(s, j, pat) {
            return Some(j);
        }
        j += 1;
    }
    None
}

/// `comment_segments` of `line` from `pos`.
fn comment_segments_exec(line: &Vec<char>, pos: usize) -> (r: (Vec<(usize, usize)>, bool))
    requires
        pos <= line.len(),
    ensures
        r.0@.map_values(|x: (usize, usize)| (x.0 as int, x.1 as int)) == comment_segments(line@, pos as int).0,
        r.1 == comment_segments(line@, pos as int).1,
        forall|k: int| 0 <= k < r.0.len() ==> (#[trigger] r.0@[k]).0 <= r.0@[k].1 <= line.len(),
{
    let ghost target = comment_segments(line@, pos as int);
    let mut acc: Vec<(usize, usize)> = Vec::new();
    let mut p = pos;
    loop
        invariant
            p <= line.len(),
            target == comment_segments(line@, pos as int),
            target.0 == acc@.map_values(|x: (usize, usize)| (x.0 as int, x.1 as int)) + comment_segments(line@, p as int).0,
            target.1 == comment_segments(line@, p as int).1,
            forall|k: int| 0 <= k < acc.len() ==> (#[trigger] acc@[k]).0 <= acc@[k].1 <= line.len(),
        decreases line.len() - p,
    {
        let ghost before = acc@;
        match find_pat(line, p, &['/', '*']) {
            None => {
                acc.push((p, line.len()));
                assert(acc@.map_values(|x: (usize, usize)| (x.0 as int, x.1 as int)) =~= before.map_values(|x: (usize, usize)| (x.0 as int, x.1 as int)) + comment_segments(line@, p as int).0);
                return (acc, false);
            },
            Some(b) => {
                acc.push((p, b));
                assert(acc@.map_values(|x: (usize, usize)| (x.0 as int, x.1 as int)) =~= before.map_values(|x: (usize, usize)| (x.0 as int, x.1 as int)) + seq![(p as int, b as int)]);
                match find_pat(line, b + 2, &['*', '/']) {
                    None => {
                        return (acc, true);
                    },
                    Some(e) => {
                        p = e + 2;
                    },
                }
            },
        }
    }
}

/// Appends the occurrences of the given ranges of `line`.
fn push_segs_refs(line: &Vec<char>, segs: &Vec<(usize, usize)>, idx: usize, out: &mut Vec<RefOccurrence>)
    requires
        utf8_len(line@) <= usize::MAX,
        forall|k: int| 0 <= k < segs.len() ==> (#[trigger] segs@[k]).0 <= segs@[k].1 <= line.len(),
    ensures
        ref_models(final(out)@) == ref_models(old(out)@) + segs_refs(
            line@,
            segs@.map_values(|x: (usize, usize)| (x.0 as int, x.1 as int)),
            idx as int,
        ),
{
    let ghost sv = segs@.map_values(|x: (usize, usize)| (x.0 as int, x.1 as int));
    let ghost start = ref_models(out@);
    let mut k: usize = 0;
    while k < segs.len()
        invariant
            k <= segs.len(),
            utf8_len(line@) <= usize::MAX,
            sv == segs@.map_values(|x: (usize, usize)| (x.0 as int, x.1 as int)),
            forall|j: int| 0 <= j < segs.len() ==> (#[trigger] segs@[j]).0 <= segs@[j].1 <= line.len(),
            ref_models(out@) == start + segs_refs(line@, sv.take(k as int), idx as int),
        decreases segs.len() - k,
    {
        let (a, b) = segs[k];
        assert(segs@[k as int].0 <= segs@[k as int].1 <= line.len());
        push_segment_refs(line, a, b, idx, out);
        assert(sv.take(k + 1).drop_last() =~= sv.take(k as int));
        assert(sv.take(k + 1).last() == (a as int, b as int));
        k += 1;
    }
    assert(sv.take(segs.len() as int) =~= sv);
}

/// Find all `@ID` occurrences in content, skipping block comments
/// (`/* ... */`, including multi-line) and fenced code blocks.
pub fn find_all_refs_filtered(content: &str) -> (refs: Vec<RefOccurrence>)
    ensures
        ref_models(refs@) == filtered_refs(content@),
{
    let cs = chars_of(content);
    let total = str_byte_len(content);
    let ls = split_lines(&cs);
    let ghost lv = lines(content@);
    let mut refs: Vec<RefOccurrence> = Vec::new();
    let mut in_block_comment = false;
    let mut in_fence = false;
    let mut i: usize = 0;
    while i < ls.len()
        invariant
            i <= ls.len(),
            views(ls@) == lv,
            lv == lines(content@),
            total == utf8_len(content@),
            filtered_upto(lv, i as int) == (ref_models(refs@), in_block_comment, in_fence),
        decreases ls.len() - i,
    {
        let line = &ls[i];
        assert(line@ == lv[i as int]);
        proof {
            lemma_line_bytes(content@, i as int);
        }
        let ghost before = ref_models(refs@);
        if in_block_comment {
            match find_pat(line, 0, &['*', '/']) {
                None => {},
                Some(e) => {
                    let (segs, bc) = comment_segments_exec(line, e + 2);
                    push_segs_refs(line, &segs, i, &mut refs);
                    in_block_comment = bc;
                },
            }
        } else if fence_line(line) {
            in_fence = !in_fence;
        } else if !in_fence {
            let (segs, bc) = comment_segments_exec(line, 0);
            push_segs_refs(line, &segs, i, &mut refs);
            in_block_comment = bc;
        }
        proof {
            let r = filtered_line(lv[i as int], i as int, filtered_upto(lv, i as int).1, filtered_upto(lv, i as int).2);
            assert(ref_models(refs@) =~= before + r.0);
        }
        i += 1;
    }
    refs
}

/// The char ranges of `line[pos..]` that lie outside comments and fences
/// for the `<ID>` link scan, with the comment and fence state after the
/// line.
pub open spec fn link_scan(line: Seq<char>, pos: int, bc: bool, fence: bool) -> (
    Seq<(int, int)>,
    bool,
    bool,
)
    decreases line.len() - pos,
    via link_scan_decreases
{
    if pos < 0 || pos > line.len() {
        (seq![], bc, fence)
    } else if bc {
        match find_from(line, pos, close_comment()) {
            None => (seq![], true, fence),
            Some(e) => link_scan(line, e + 2, false, fence),
        }
    } else if pos == 0 && is_fence(line) {
        (seq![], false, !fence)
    } else if fence {
        (seq![], false, true)
    } else {
        let bp = find_from(line, pos, open_comment());
        let fp = find_from(line, pos, fence_mark());
        if bp is Some && (fp is None || bp->0 < fp->0) {
            let b = bp->0;
            let r = link_scan(line, b + 2, true, false);
            (seq![(pos, b)] + r.0, r.1, r.2)
        } else if fp is Some {
            (seq![(pos, fp->0)], false, true)
        } else {
            (seq![(pos, line.len() as int)], false, false)
        }
    }
}

#[via_fn]
proof fn link_scan_decreases(line: Seq<char>, pos: int, bc: bool, fence: bool) {
    lemma_find_from(line, pos, close_comment());
    lemma_find_from(line, pos, open_comment());
}

/// The `<ID>` matches of one range of `line`.
pub open spec fn segment_angle_ids(line: Seq<char>, a: int, b: int) -> Seq<Seq<char>> {
    let seg = line.subrange(a, b);
    id_matches(seg, '<', true).map_values(|p: int| seg.subrange(p + 1, p + 11))
}

/// `ids` without those equal to `self_id`.
pub open spec fn drop_self(ids: Seq<Seq<char>>, self_id: Option<Seq<char>>) -> Seq<Seq<char>>
    decreases ids.len(),
{
    if ids.len() == 0 {
        seq![]
    } else {
        let p = drop_self(ids.drop_last(), self_id);
        if self_id == Some(ids.last()) {
            p
        } else {
            p.push(ids.last())
        }
    }
}

/// The `<ID>` matches of a list of ranges, without `self_id`.
pub open spec fn segs_angle_ids(line: Seq<char>, segs: Seq<(int, int)>, self_id: Option<Seq<char>>) -> Seq<Seq<char>>
    decreases segs.len(),
{
    if segs.len() == 0 {
        seq![]
    } else {
        segs_angle_ids(line, segs.drop_last(), self_id) + drop_self(
            segment_angle_ids(line, segs.last().0, segs.last().1),
            self_id,
        )
    }
}

/// The `<ID>` links of the first `n` lines, with the scan state after them.
pub open spec fn links_upto(ls: Seq<Seq<char>>, n: int, self_id: Option<Seq<char>>) -> (
    Seq<Seq<char>>,
    bool,
    bool,
)
    decreases n,
{
    if n <= 0 {
        (seq![], false, false)
    } else {
        let p = links_upto(ls, n - 1, self_id);
        let r = link_scan(ls[n - 1], 0, p.1, p.2);
        (p.0 + segs_angle_ids(ls[n - 1], r.0, self_id), r.1, r.2)
    }
}

/// The link IDs of `content`: the filtered `@ID` occurrences, then the
/// `<ID>` forms outside comments and fences other than the note's own
/// title ID.
pub open spec fn link_ids(content: Seq<char>) -> Seq<Seq<char>> {
    let self_id = match note_header(content) {
        Some(h) => Some(h.id),
        None => None,
    };
    let ls = lines(content);
    filtered_refs(content).map_values(|r: RefModel| r.id) + links_upto(ls, ls.len() as int, self_id).0
}

fn link_scan_exec(line: &Vec<char>, bc0: bool, fence0: bool) -> (r: (Vec<(usize, usize)>, bool, bool))
    ensures
        ({
            let t = link_scan(line@, 0, bc0, fence0);
            &&& r.0@.map_values(|x: (usize, usize)| (x.0 as int, x.1 as int)) == t.0
            &&& r.1 == t.1
            &&& r.2 == t.2
        }),
        forall|k: int| 0 <= k < r.0.len() ==> (#[trigger] r.0@[k]).0 <= r.0@[k].1 <= line.len(),
{
    let ghost target = link_scan(line@, 0, bc0, fence0);
    let mut acc: Vec<(usize, usize)> = Vec::new();
    let mut p: usize = 0;
    let mut bc = bc0;
    let fence = fence0;
    loop
        invariant
            p <= line.len(),
            target == link_scan(line@, 0, bc0, fence0),
            target.0 == acc@.map_values(|x: (usize, usize)| (x.0 as int, x.1 as int)) + link_scan(line@, p as int, bc, fence).0,
            target.1 == link_scan(line@, p as int, bc, fence).1,
            target.2 == link_scan(line@, p as int, bc, fence).2,
            forall|k: int| 0 <= k < acc.len() ==> (#[trigger] acc@[k]).0 <= acc@[k].1 <= line.len(),
        decreases line.len() - p,
    {
        let ghost before = acc@;
        if bc {
            match find_pat(line, p, &['*', '/']) {
                None => {
                    return (acc, true, fence);
                },
                Some(e) => {
                    bc = false;
                    p = e + 2;
                },
            }
        } else if p == 0 && fence_line(line) {
            return (acc, false, !fence);
        } else if fence {
            return (acc, false, true);
        } else {
            let bp = find_pat(line, p, &['/', '*']);
            let fp = find_pat(line, p, &['`', '`', '`']);
            let cut_comment = match (bp, fp) {
                (Some(b), Some(f)) => b < f,
                (Some(_), None) => true,
                _ => false,
            };
            if cut_comment {
                let b = match bp { Some(b) => b, None => 0 };
                acc.push((p, b));
                assert(acc@.map_values(|x: (usize, usize)| (x.0 as int, x.1 as int)) =~= before.map_values(|x: (usize, usize)| (x.0 as int, x.1 as int)) + seq![(p as int, b as int)]);
                bc = true;
                p = b + 2;
            } else {
                match fp {
                    Some(f) => {
                        acc.push((p, f));
                        assert(acc@.map_values(|x: (usize, usize)| (x.0 as int, x.1 as int)) =~= before.map_values(|x: (usize, usize)| (x.0 as int, x.1 as int)) + link_scan(line@, p as int, bc, fence).0);
                        return (acc, false, true);
                    },
                    None => {
                        acc.push((p, line.len()));
                        assert(acc@.map_values(|x: (usize, usize)| (x.0 as int, x.1 as int)) =~= before.map_values(|x: (usize, usize)| (x.0 as int, x.1 as int)) + link_scan(line@, p as int, bc, fence).0);
                        return (acc, false, false);
                    },
                }
            }
        }
    }
}


/// Appends the `<ID>` matches of `line[a..b]` other than `self_id`.
fn push_angle_ids(line: &Vec<char>, a: usize, b: usize, self_id: &Option<String>, out: &mut Vec<String>)
    requires
        a <= b <= line.len(),
    ensures
        final(out)@.map_values(|x: String| x@) == old(out)@.map_values(|x: String| x@) + drop_self(
            segment_angle_ids(line@, a as int, b as int),
            opt_view(*self_id),
        ),
{
    let seg = subvec(line, a, b);
    let positions = scan_id_matches(&seg, '<', true);
    proof {
        lemma_id_matches_from_bounds(seg@, 0, '<', true);
    }
    let ghost pos = positions@.map_values(|x: usize| x as int);
    let ghost all = segment_angle_ids(line@, a as int, b as int);
    let ghost start = out@.map_values(|x: String| x@);
    let mut j: usize = 0;
    while j < positions.len()
        invariant
            j <= positions.len(),
            seg@ == line@.subrange(a as int, b as int),
            pos == positions@.map_values(|x: usize| x as int),
            pos == id_matches(seg@, '<', true),
            forall|q: int| 0 <= q < pos.len() ==> id_match_at(seg@, #[trigger] pos[q], '<', true),
            all == segment_angle_ids(line@, a as int, b as int),
            out@.map_values(|x: String| x@) == start + drop_self(all.take(j as int), opt_view(*self_id)),
        decreases positions.len() - j,
    {
        let p = positions[j];
        assert(id_match_at(seg@, pos[j as int], '<', true));
        let id = string_from_range(&seg, p + 1, p + 11);
        assert(all.take(j + 1).drop_last() =~= all.take(j as int));
        assert(all.take(j + 1).last() == id@);
        let is_self = match self_id {
            Some(sid) => str_eq(sid.as_str(), id.as_str()),
            None => false,
        };
        if !is_self {
            let ghost before = out@;
            out.push(id);
            assert(out@.map_values(|x: String| x@) =~= before.map_values(|x: String| x@).push(all[j as int]));
        }
        j += 1;
    }
    assert(all.take(positions.len() as int) =~= all);
}

/// The view of an optional string.
pub open spec fn opt_view(o: Option<String>) -> Option<Seq<char>> {
    match o {
        Some(s) => Some(s@),
        None => None,
    }
}

/// Find all link target IDs in content, combining both `@ID` and `<ID>`
/// forms, while skipping block comments and fenced code blocks.
///
/// The note's own title ID (`= Title <ID>`) is excluded to avoid treating
/// the note header as a self-link.
pub fn find_all_link_ids_filtered(content: &str) -> (ids: Vec<String>)
    ensures
        ids@.map_values(|x: String| x@) == link_ids(content@),
{
    let self_id: Option<String> = match parse_header(content) {
        Some(h) => Some(h.id),
        None => None,
    };
    let ghost sid = match note_header(content@) {
        Some(h) => Some(h.id),
        None => None,
    };
    assert(opt_view(self_id) == sid);
    let refs = find_all_refs_filtered(content);
    let mut ids: Vec<String> = Vec::new();
    let mut k: usize = 0;
    while k < refs.len()
        invariant
            k <= refs.len(),
            ids@.map_values(|x: String| x@) == ref_models(refs@).take(k as int).map_values(|r: RefModel| r.id),
        decreases refs.len() - k,
    {
        let ghost before = ids@;
        let ghost rm = ref_models(refs@);
        let id = refs[k].id.clone();
        assert(id@ == rm[k as int].id);
        ids.push(id);
        assert(rm.take(k + 1).map_values(|r: RefModel| r.id) =~= rm.take(k as int).map_values(|r: RefModel| r.id).push(rm[k as int].id));
        assert(ids@.map_values(|x: String| x@) =~= before.map_values(|x: String| x@).push(id@));
        k += 1;
    }
    assert(ref_models(refs@).take(refs.len() as int) =~= ref_models(refs@));
    let cs = chars_of(content);
    let ls = split_lines(&cs);
    let ghost lv = lines(content@);
    let ghost head = ids@.map_values(|x: String| x@);
    let mut bc = false;
    let mut fence = false;
    let mut i: usize = 0;
    while i < ls.len()
        invariant
            i <= ls.len(),
            views(ls@) == lv,
            lv == lines(content@),
            opt_view(self_id) == sid,
            ({
                let p = links_upto(lv, i as int, sid);
                &&& ids@.map_values(|x: String| x@) == head + p.0
                &&& bc == p.1
                &&& fence == p.2
            }),
        decreases ls.len() - i,
    {
        let line = &ls[i];
        assert(line@ == lv[i as int]);
        let (segs, bc2, fence2) = link_scan_exec(line, bc, fence);
        let ghost sv = segs@.map_values(|x: (usize, usize)| (x.0 as int, x.1 as int));
        let ghost mid = ids@.map_values(|x: String| x@);
        let mut j: usize = 0;
        while j < segs.len()
            invariant
                j <= segs.len(),
                sv == segs@.map_values(|x: (usize, usize)| (x.0 as int, x.1 as int)),
                forall|q: int| 0 <= q < segs.len() ==> (#[trigger] segs@[q]).0 <= segs@[q].1 <= line.len(),
                opt_view(self_id) == sid,
                ids@.map_values(|x: String| x@) == mid + segs_angle_ids(line@, sv.take(j as int), sid),
            decreases segs.len() - j,
        {
            let (a, b) = segs[j];
            assert(segs@[j as int].0 <= segs@[j as int].1 <= line.len());
            push_angle_ids(line, a, b, &self_id, &mut ids);
            assert(sv.take(j + 1).drop_last() =~= sv.take(j as int));
            assert(sv.take(j + 1).last() == (a as int, b as int));
            j += 1;
        }
        assert(sv.take(segs.len() as int) =~= sv);
        bc = bc2;
        fence = fence2;
        i += 1;
    }
    ids
}

// ---------------------------------------------------------------------------
// Headings
// ---------------------------------------------------------------------------

/// A heading parsed from note content (outside fenced code).
#[derive(Debug, Clone)]
pub struct Heading {
    pub level: u32,
    pub text: String,
    pub line_idx: usize,
}

/// A heading as plain values.
pub struct HeadingModel {
    pub level: u32,
    pub text: Seq<char>,
    pub line_idx: int,
}

impl View for Heading {
    type V = HeadingModel;

    open spec fn view(&self) -> HeadingModel {
        HeadingModel { level: self.level, text: self.text@, line_idx: self.line_idx as int }
    }
}

/// Number of leading `'='` chars.
pub open spec fn eq_prefix_len(s: Seq<char>) -> nat
    decreases s.len(),
{
    if s.len() > 0 && s[0] == '=' {
        1 + eq_prefix_len(s.drop_first())
    } else {
        0
    }
}

/// For a line matching `^(=+)\s+(.+)`, the level and the second group
/// (the part after the greedy white-space run, or its last white-space char
/// when nothing follows the run).
pub open spec fn heading_parts(line: Seq<char>) -> Option<(nat, Seq<char>)> {
    let level = eq_prefix_len(line);
    let w = ws_prefix_len(line.skip(level as int));
    if level == 0 || w == 0 {
        None
    } else if level + w < line.len() {
        Some((level, line.skip((level + w) as int)))
    } else if w >= 2 {
        Some((level, line.subrange(line.len() - 1, line.len() as int)))
    } else {
        None
    }
}

/// `text` with a trailing `\s+<\d{10}>` removed.
pub open spec fn strip_id_suffix(text: Seq<char>) -> Seq<char> {
    let n = text.len();
    if n >= 13 && id_match_at(text, n - 12, '<', true) && is_ws(text[n - 13]) {
        let body = text.take(n - 12);
        body.take(body.len() - ws_suffix_len(body))
    } else {
        text
    }
}

/// The heading of line `idx`, if it is one.
pub open spec fn heading_of_line(line: Seq<char>, idx: int) -> Option<HeadingModel> {
    match heading_parts(line) {
        Some((level, g)) => Some(
            HeadingModel {
                level: level as u32,
                text: strip_id_suffix(trim(g)),
                line_idx: idx,
            },
        ),
        None => None,
    }
}

/// The headings of the first `n` lines, fenced blocks skipped.
pub open spec fn headings_upto(ls: Seq<Seq<char>>, n: int) -> Seq<HeadingModel>
    decreases n,
{
    if n <= 0 {
        seq![]
    } else {
        let prev = headings_upto(ls, n - 1);
        if outside_fence(ls, n - 1) && heading_of_line(ls[n - 1], n - 1) is Some {
            prev.push(heading_of_line(ls[n - 1], n - 1)->0)
        } else {
            prev
        }
    }
}

fn eq_prefix_count(s: &Vec<char>) -> (n: usize)
    ensures
        n == eq_prefix_len(s@),
        n <= s.len(),
{
    let mut i: usize = 0;
    assert(s@.skip(0) =~= s@);
    while i < s.len() && s[i] == '='
        invariant
            i <= s.len(),
            eq_prefix_len(s@) == i + eq_prefix_len(s@.skip(i as int)),
        decreases s.len() - i,
    {
        assert(s@.skip(i as int).drop_first() =~= s@.skip(i + 1));
        i += 1;
    }
    n_of(i)
}

fn n_of(i: usize) -> (r: usize)
    ensures
        r == i,
{
    i
}

fn heading_of(line: &Vec<char>, idx: usize) -> (r: Option<Heading>)
    ensures
        r matches Some(h) ==> heading_of_line(line@, idx as int) == Some(h@),
        r is None ==> heading_of_line(line@, idx as int) is None,
{
    let level = eq_prefix_count(line);
    let w = ws_prefix_count(line, level, line.len());
    assert(line@.subrange(level as int, line@.len() as int) =~= line@.skip(level as int));
    let n = line.len();
    if level == 0 || w == 0 {
        return None;
    }
    let (ga, gb) = if level + w < n {
        (level + w, n)
    } else if w >= 2 {
        (n - 1, n)
    } else {
        return None;
    };
    assert(line@.subrange(ga as int, gb as int) == (heading_parts(line@)->0).1);
    let (ta, tb) = trim_range(line, ga, gb);
    let ghost t = line@.subrange(ta as int, tb as int);
    let mut end = tb;
    if tb - ta >= 13 && id_match_here(line, tb - 12, '<', true) && is_whitespace(line[tb - 13]) {
        let s = ws_suffix_count(line, ta, tb - 12);
        end = tb - 12 - s;
        proof {
            assert(t.take(t.len() - 12) =~= line@.subrange(ta as int, tb - 12));
            assert(t[t.len() - 13] == line@[tb - 13]);
            assert forall|k: int| 1 <= k <= 10 implies is_decimal_digit(#[trigger] t[t.len() - 12 + k]) by {
                assert(t[t.len() - 12 + k] == line@[tb - 12 + k]);
            }
            assert(line@.subrange(ta as int, end as int) =~= strip_id_suffix(t));
        }
    } else {
        proof {
            if t.len() >= 13 && id_match_at(t, t.len() - 12, '<', true) && is_ws(t[t.len() - 13]) {
                assert(line@[tb - 13] == t[t.len() - 13]);
                assert(line@[tb - 12] == t[t.len() - 12]);
                assert(line@[tb - 1] == t[t.len() - 1]);
                assert forall|k: int| 1 <= k <= 10 implies is_decimal_digit(#[trigger] line@[tb - 12 + k]) by {
                    assert(t[t.len() - 12 + k] == line@[tb - 12 + k]);
                }
                assert(false);
            }
            assert(line@.subrange(ta as int, end as int) =~= strip_id_suffix(t));
        }
    }
    let text = string_from_range(line, ta, end);
    Some(Heading { level: level as u32, text, line_idx: idx })
}

/// Parse all headings from `content`, skipping fenced code blocks.
/// For the title heading (`= Title <YYMMDDHHMM>`), the ` <ID>` suffix is
/// stripped.
pub fn parse_headings(content: &str) -> (hs: Vec<Heading>)
    ensures
        hs@.map_values(|h: Heading| h@) == headings_upto(lines(content@), lines(content@).len() as int),
{
    let cs = chars_of(content);
    let ls = split_lines(&cs);
    let ghost lv = lines(content@);
    let mut hs: Vec<Heading> = Vec::new();
    let mut in_fence = false;
    let mut i: usize = 0;
    while i < ls.len()
        invariant
            i <= ls.len(),
            views(ls@) == lv,
            lv == lines(content@),
            in_fence == fence_open_before(lv, i as int),
            hs@.map_values(|h: Heading| h@) == headings_upto(lv, i as int),
        decreases ls.len() - i,
    {
        let line = &ls[i];
        assert(line@ == lv[i as int]);
        if fence_line(line) {
            in_fence = !in_fence;
        } else if !in_fence {
            match heading_of(line, i) {
                Some(h) => {
                    let ghost before = hs@;
                    hs.push(h);
                    assert(hs@.map_values(|h: Heading| h@) =~= before.map_values(|h: Heading| h@).push(h@));
                },
                None => {},
            }
        }
        i += 1;
    }
    hs
}

} // verus!
