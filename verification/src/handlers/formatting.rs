//! Byte-range edits of a note's text.
use vstd::prelude::*;
use crate::cycle::{dec, dec_exec};
use crate::text::{char_byte_len, char_len, chars_of, lemma_utf8_len_take_succ, push_chars, push_str, str_byte_len, string_from_chars, utf8_len};

verus! {

/// An edit as plain data: start byte, end byte, replacement.
pub open spec fn edit_model(e: (usize, usize, String)) -> (int, int, Seq<char>) {
    (e.0 as int, e.1 as int, e.2@)
}

pub open spec fn edit_models(es: Seq<(usize, usize, String)>) -> Seq<(int, int, Seq<char>)> {
    es.map_values(|e: (usize, usize, String)| edit_model(e))
}

/// A rejected list of edits.
#[derive(Debug, Clone, PartialEq, Eq, Structural)]
pub enum EditError {
    /// An edit whose start lies after its end.
    Inverted { start: usize, end: usize },
    /// An edit that ends past the text.
    OutOfBounds { end: usize, len: usize },
    /// Two edits that overlap, in start order.
    Overlap { first_start: usize, first_end: usize, second_start: usize, second_end: usize },
}

pub open spec fn dec_of(n: usize) -> Seq<char> {
    dec(n as nat)
}

pub open spec fn edit_error_message(e: EditError) -> Seq<char> {
    match e {
        EditError::Inverted { start, end } => "edit has start ("@ + dec_of(start) + ") > end ("@ + dec_of(end) + ")"@,
        EditError::OutOfBounds { end, len } => "edit end ("@ + dec_of(end) + ") out of bounds (len="@ + dec_of(len) + ")"@,
        EditError::Overlap { first_start, first_end, second_start, second_end } => "edits overlap: ["@ + dec_of(first_start)
            + ", "@ + dec_of(first_end) + ") and ["@ + dec_of(second_start) + ", "@ + dec_of(second_end) + ")"@,
    }
}

fn push_dec(out: &mut Vec<char>, n: usize)
    ensures
        final(out)@ == old(out)@ + dec_of(n),
{
    let d = dec_exec(n as u64);
    push_chars(out, &d);
}

impl EditError {
    /// The message shown for the error.
    pub fn message(&self) -> (r: String)
        ensures
            r@ == edit_error_message(*self),
    {
        let mut out: Vec<char> = Vec::new();
        match *self {
            EditError::Inverted { start, end } => {
                push_str(&mut out, "edit has start (");
                push_dec(&mut out, start);
                push_str(&mut out, ") > end (");
                push_dec(&mut out, end);
                push_str(&mut out, ")");
            },
            EditError::OutOfBounds { end, len } => {
                push_str(&mut out, "edit end (");
                push_dec(&mut out, end);
                push_str(&mut out, ") out of bounds (len=");
                push_dec(&mut out, len);
                push_str(&mut out, ")");
            },
            EditError::Overlap { first_start, first_end, second_start, second_end } => {
                push_str(&mut out, "edits overlap: [");
                push_dec(&mut out, first_start);
                push_str(&mut out, ", ");
                push_dec(&mut out, first_end);
                push_str(&mut out, ") and [");
                push_dec(&mut out, second_start);
                push_str(&mut out, ", ");
                push_dec(&mut out, second_end);
                push_str(&mut out, ")");
            },
        }
        string_from_chars(&out)
    }
}

/// The first edit among `es[k..]` whose range is inverted or past `len`.
pub open spec fn bounds_error(es: Seq<(usize, usize, String)>, len: usize, k: int) -> Option<EditError>
    decreases es.len() - k,
{
    if k < 0 || k >= es.len() {
        None
    } else if !(es[k].0 <= es[k].1) {
        Some(EditError::Inverted { start: es[k].0, end: es[k].1 })
    } else if !(es[k].1 <= len) {
        Some(EditError::OutOfBounds { end: es[k].1, len })
    } else {
        bounds_error(es, len, k + 1)
    }
}

/// `s` (sorted by start) with `e` placed after every edit that starts no
/// later than it.
pub open spec fn insert_by_start(s: Seq<(usize, usize, String)>, e: (usize, usize, String)) -> Seq<(usize, usize, String)>
    decreases s.len(),
{
    if s.len() == 0 || s.last().0 <= e.0 {
        s.push(e)
    } else {
        insert_by_start(s.drop_last(), e).push(s.last())
    }
}

/// The first `n` edits sorted by start, equal starts in their given order.
pub open spec fn sort_by_start(es: Seq<(usize, usize, String)>, n: int) -> Seq<(usize, usize, String)>
    decreases n,
{
    if n <= 0 {
        seq![]
    } else {
        insert_by_start(sort_by_start(es, n - 1), es[n - 1])
    }
}

/// The first pair of neighbours among `s[k..]` that overlap.
pub open spec fn overlap_error(s: Seq<(usize, usize, String)>, k: int) -> Option<EditError>
    decreases s.len() - k,
{
    if k < 0 || k + 1 >= s.len() {
        None
    } else if !(s[k].1 <= s[k + 1].0) {
        Some(EditError::Overlap { first_start: s[k].0, first_end: s[k].1, second_start: s[k + 1].0, second_end: s[k + 1].1 })
    } else {
        overlap_error(s, k + 1)
    }
}

/// Byte offset `b` falls between two chars of `c`.
pub open spec fn is_boundary(c: Seq<char>, b: int) -> bool {
    exists|k: int| 0 <= k <= c.len() && #[trigger] utf8_len(c.take(k)) == b
}

/// The char index at byte offset `b`.
pub open spec fn char_index(c: Seq<char>, b: int) -> int {
    choose|k: int| 0 <= k <= c.len() && #[trigger] utf8_len(c.take(k)) == b
}

/// The text with the sorted edits `s[k..]` applied, from char index `from`.
pub open spec fn splice(c: Seq<char>, s: Seq<(usize, usize, String)>, k: int, from: int) -> Seq<char>
    decreases s.len() - k,
{
    if k < 0 || k >= s.len() {
        c.subrange(from, c.len() as int)
    } else {
        c.subrange(from, char_index(c, s[k].0 as int)) + s[k].2@ + splice(c, s, k + 1, char_index(c, s[k].1 as int))
    }
}

/// The outcome of the edits: the first range error, else the first
/// overlap in start order, else the text with every range replaced.
pub open spec fn apply_edits_spec(content: Seq<char>, es: Seq<(usize, usize, String)>) -> Result<Seq<char>, EditError> {
    match bounds_error(es, utf8_len(content) as usize, 0) {
        Some(e) => Err(e),
        None => {
            let s = sort_by_start(es, es.len() as int);
            match overlap_error(s, 0) {
                Some(e) => Err(e),
                None => Ok(splice(content, s, 0, 0)),
            }
        },
    }
}

/// Every edit's ends fall between chars.
pub open spec fn on_boundaries(content: Seq<char>, es: Seq<(usize, usize, String)>) -> bool {
    forall|i: int| 0 <= i < es.len() ==> is_boundary(content, (#[trigger] es[i]).0 as int) && is_boundary(content, es[i].1 as int)
}

proof fn lemma_prefix_bytes_increase(c: Seq<char>, i: int, j: int)
    requires
        0 <= i < j <= c.len(),
    ensures
        utf8_len(c.take(i)) < utf8_len(c.take(j)),
    decreases j - i,
{
    lemma_utf8_len_take_succ(c, i);
    if i + 1 < j {
        lemma_prefix_bytes_increase(c, i + 1, j);
    }
}

/// The char index of byte offset `b`, if it falls between chars.
fn char_index_exec(c: &Vec<char>, b: usize) -> (r: Option<usize>)
    requires
        utf8_len(c@) <= usize::MAX,
    ensures
        r matches Some(k) ==> k <= c.len() && utf8_len(c@.take(k as int)) == b && char_index(c@, b as int) == k,
        r is None ==> !is_boundary(c@, b as int),
{
    let mut i: usize = 0;
    let mut acc: usize = 0;
    assert(c@.take(0) =~= Seq::<char>::empty());
    while i < c.len() && acc < b
        invariant
            i <= c.len(),
            acc == utf8_len(c@.take(i as int)),
            utf8_len(c@) <= usize::MAX,
            forall|k: int| 0 <= k < i ==> #[trigger] utf8_len(c@.take(k)) < b,
        decreases c.len() - i,
    {
        proof {
            lemma_utf8_len_take_succ(c@, i as int);
            if i + 1 < c.len() {
                lemma_prefix_bytes_increase(c@, i + 1, c.len() as int);
            }
            assert(c@.take(c.len() as int) =~= c@);
        }
        acc = acc + char_byte_len(c[i]);
        i += 1;
    }
    if acc == b {
        proof {
            let k = char_index(c@, b as int);
            assert(utf8_len(c@.take(i as int)) == b);
            if k != i as int {
                if k < i {
                    lemma_prefix_bytes_increase(c@, k, i as int);
                } else {
                    lemma_prefix_bytes_increase(c@, i as int, k);
                }
            }
        }
        Some(i)
    } else {
        proof {
            assert forall|k: int| 0 <= k <= c.len() implies #[trigger] utf8_len(c@.take(k)) != b by {
                if k > i {
                    lemma_prefix_bytes_increase(c@, i as int, k);
                }
            }
        }
        None
    }
}

proof fn lemma_char_index_monotone(c: Seq<char>, b1: int, b2: int)
    requires
        is_boundary(c, b1),
        is_boundary(c, b2),
        b1 <= b2,
    ensures
        0 <= char_index(c, b1) <= char_index(c, b2) <= c.len(),
        utf8_len(c.take(char_index(c, b1))) == b1,
{
    let k1 = char_index(c, b1);
    let k2 = char_index(c, b2);
    if k1 > k2 {
        lemma_prefix_bytes_increase(c, k2, k1);
    }
}

proof fn lemma_insert_members(s: Seq<(usize, usize, String)>, e: (usize, usize, String))
    ensures
        forall|q: int| 0 <= q < insert_by_start(s, e).len() ==> s.contains(#[trigger] insert_by_start(s, e)[q]) || insert_by_start(s, e)[q] == e,
    decreases s.len(),
{
    let r = insert_by_start(s, e);
    if s.len() == 0 || s.last().0 <= e.0 {
        assert forall|q: int| 0 <= q < r.len() implies s.contains(#[trigger] r[q]) || r[q] == e by {
            if q < s.len() {
                assert(r[q] == s[q]);
            }
        }
    } else {
        lemma_insert_members(s.drop_last(), e);
        let r0 = insert_by_start(s.drop_last(), e);
        assert forall|q: int| 0 <= q < r.len() implies s.contains(#[trigger] r[q]) || r[q] == e by {
            if q < r0.len() {
                assert(r[q] == r0[q]);
                if s.drop_last().contains(r0[q]) {
                    let y = choose|y: int| 0 <= y < s.drop_last().len() && s.drop_last()[y] == r0[q];
                    assert(s[y] == r0[q]);
                }
            } else {
                assert(r[q] == s.last());
                assert(s[s.len() - 1] == s.last());
            }
        }
    }
}

proof fn lemma_sort_members(es: Seq<(usize, usize, String)>, n: int)
    requires
        0 <= n <= es.len(),
    ensures
        forall|q: int| 0 <= q < sort_by_start(es, n).len() ==> es.contains(#[trigger] sort_by_start(es, n)[q]),
    decreases n,
{
    if n > 0 {
        lemma_sort_members(es, n - 1);
        let prev = sort_by_start(es, n - 1);
        lemma_insert_members(prev, es[n - 1]);
        let cur = sort_by_start(es, n);
        assert forall|q: int| 0 <= q < cur.len() implies es.contains(#[trigger] cur[q]) by {
            if prev.contains(cur[q]) {
                let y = choose|y: int| 0 <= y < prev.len() && prev[y] == cur[q];
                assert(es.contains(prev[y]));
            } else {
                assert(cur[q] == es[n - 1]);
            }
        }
    }
}

proof fn lemma_no_overlap(s: Seq<(usize, usize, String)>, k: int)
    requires
        0 <= k,
        overlap_error(s, k) is None,
    ensures
        forall|w: int| k <= w && w + 1 < s.len() ==> (#[trigger] s[w]).1 <= s[w + 1].0,
    decreases s.len() - k,
{
    if k + 1 < s.len() {
        lemma_no_overlap(s, k + 1);
    }
}

proof fn lemma_bounds_ok(es: Seq<(usize, usize, String)>, len: usize, k: int)
    requires
        0 <= k,
        bounds_error(es, len, k) is None,
    ensures
        forall|q: int| k <= q < es.len() ==> (#[trigger] es[q]).0 <= es[q].1 <= len,
    decreases es.len() - k,
{
    if k < es.len() {
        lemma_bounds_ok(es, len, k + 1);
    }
}

fn copy_edit(e: &(usize, usize, String)) -> (r: (usize, usize, String))
    ensures
        r == *e,
{
    (e.0, e.1, e.2.clone())
}

fn insert_sorted(s: &mut Vec<(usize, usize, String)>, e: (usize, usize, String))
    ensures
        final(s)@ == insert_by_start(old(s)@, e),
    decreases old(s)@.len(),
{
    if s.len() == 0 || s[s.len() - 1].0 <= e.0 {
        s.push(e);
    } else {
        let ghost before = s@;
        let last = s.pop().unwrap();
        assert(s@ == before.drop_last());
        insert_sorted(s, e);
        s.push(last);
    }
}

/// The edits sorted by start, equal starts in their given order.
pub(crate) fn sorted_by_start(edits: &[(usize, usize, String)]) -> (r: Vec<(usize, usize, String)>)
    ensures
        r@ == sort_by_start(edits@, edits.len() as int),
{
    let mut sorted: Vec<(usize, usize, String)> = Vec::new();
    let mut k: usize = 0;
    while k < edits.len()
        invariant
            k <= edits.len(),
            sorted@ == sort_by_start(edits@, k as int),
        decreases edits.len() - k,
    {
        insert_sorted(&mut sorted, copy_edit(&edits[k]));
        k += 1;
    }
    sorted
}

/// Applies byte-range edits `(start, end, text)` to `content`: each edit
/// must lie inside the text with its start no later than its end, and no
/// two may overlap; the ranges are replaced by their texts.
pub fn apply_byte_edits(content: &str, edits: &[(usize, usize, String)]) -> (r: Result<String, EditError>)
    requires
        bounds_error(edits@, utf8_len(content@) as usize, 0) is None && overlap_error(
            sort_by_start(edits@, edits.len() as int),
            0,
        ) is None ==> on_boundaries(content@, edits@),
    ensures
        match r {
            Ok(s) => apply_edits_spec(content@, edits@) == Ok::<Seq<char>, EditError>(s@),
            Err(e) => apply_edits_spec(content@, edits@) == Err::<Seq<char>, EditError>(e),
        },
{
    let len = str_byte_len(content);
    let mut k: usize = 0;
    while k < edits.len()
        invariant
            k <= edits.len(),
            len == utf8_len(content@),
            bounds_error(edits@, len, 0) == bounds_error(edits@, len, k as int),
        decreases edits.len() - k,
    {
        let (start, end) = (edits[k].0, edits[k].1);
        if !(start <= end) {
            return Err(EditError::Inverted { start, end });
        }
        if !(end <= len) {
            return Err(EditError::OutOfBounds { end, len });
        }
        k += 1;
    }
    proof {
        lemma_bounds_ok(edits@, len, 0);
    }
    let sorted = sorted_by_start(edits);
    let mut w: usize = 0;
    while sorted.len() > 0 && w < sorted.len() - 1
        invariant
            w <= sorted.len(),
            len == utf8_len(content@),
            bounds_error(edits@, len, 0) is None,
            sorted@ == sort_by_start(edits@, edits.len() as int),
            overlap_error(sorted@, 0) == overlap_error(sorted@, w as int),
        decreases sorted.len() - w,
    {
        if !(sorted[w].1 <= sorted[w + 1].0) {
            return Err(EditError::Overlap {
                first_start: sorted[w].0,
                first_end: sorted[w].1,
                second_start: sorted[w + 1].0,
                second_end: sorted[w + 1].1,
            });
        }
        w += 1;
    }
    assert(overlap_error(sorted@, 0) is None);
    let ghost s = sorted@;
    proof {
        lemma_sort_members(edits@, edits.len() as int);
        lemma_no_overlap(s, 0);
        assert(on_boundaries(content@, edits@));
    }
    let cs = chars_of(content);
    let mut out: Vec<char> = Vec::new();
    let mut from: usize = 0;
    let mut j: usize = 0;
    while j < sorted.len()
        invariant
            j <= sorted.len(),
            s == sorted@,
            cs@ == content@,
            from <= cs.len(),
            utf8_len(cs@) <= usize::MAX,
            len == utf8_len(content@),
            on_boundaries(content@, edits@),
            forall|q: int| 0 <= q < s.len() ==> edits@.contains(#[trigger] s[q]),
            forall|w: int| 0 <= w && w + 1 < s.len() ==> (#[trigger] s[w]).1 <= s[w + 1].0,
            j == 0 ==> from == 0,
            j > 0 ==> from == char_index(cs@, s[j - 1].1 as int),
            out@ + splice(cs@, s, j as int, from as int) == splice(cs@, s, 0, 0),
        decreases sorted.len() - j,
    {
        let e = &sorted[j];
        proof {
            assert(edits@.contains(s[j as int]));
            let q = choose|q: int| 0 <= q < edits.len() && edits@[q] == s[j as int];
            assert(is_boundary(content@, edits@[q].0 as int));
            assert(is_boundary(content@, edits@[q].1 as int));
            if j > 0 {
                assert(edits@.contains(s[j - 1]));
                let q0 = choose|q0: int| 0 <= q0 < edits.len() && edits@[q0] == s[j - 1];
                assert(is_boundary(content@, edits@[q0].1 as int));
                assert(s[j - 1].1 <= s[j as int].0);
                lemma_char_index_monotone(cs@, s[j - 1].1 as int, s[j as int].0 as int);
            } else {
                assert(utf8_len(cs@.take(0)) == 0) by {
                    assert(cs@.take(0) =~= Seq::<char>::empty());
                }
                assert(is_boundary(cs@, 0));
                lemma_char_index_monotone(cs@, 0, s[j as int].0 as int);
            }
        }
        let a = char_index_exec(&cs, e.0);
        let b = char_index_exec(&cs, e.1);
        let ai = a.unwrap();
        let bi = b.unwrap();
        let piece = crate::parser::subvec(&cs, from, ai);
        let ghost before = out@;
        push_chars(&mut out, &piece);
        push_str(&mut out, e.2.as_str());
        assert(out@ == before + cs@.subrange(from as int, ai as int) + s[j as int].2@);
        from = bi;
        j += 1;
    }
    let tail = crate::parser::subvec(&cs, from, cs.len());
    push_chars(&mut out, &tail);
    Ok(string_from_chars(&out))
}

} // verus!
