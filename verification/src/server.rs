//! The documents that the language server keeps open: LSP positions
//! (line, UTF-16 column) as byte offsets, and incremental edits.
use vstd::prelude::*;
use crate::parser::{char_utf16_len, lemma_utf16_len_take_succ, utf16_len};
use crate::text::{byte_offset, chars_of, line_end, lemma_line_end, str_byte_len, utf8_len};

verus! {

/// An LSP position: a 0-based line and a column in UTF-16 code units.
#[derive(Debug, Clone, Copy, PartialEq, Eq, Structural)]
pub struct Position {
    pub line: u32,
    pub character: u32,
}

/// An LSP range of a document.
#[derive(Debug, Clone, Copy, PartialEq, Eq, Structural)]
pub struct Range {
    pub start: Position,
    pub end: Position,
}

/// A change of a document: the text of `range` replaced by `text`, or the
/// whole document where there is no range.
#[derive(Debug)]
pub struct ContentChange {
    pub range: Option<Range>,
    pub text: String,
}

/// The char index where line `line` of `s` starts; `s.len()` where `s` has
/// fewer lines.
pub open spec fn line_start(s: Seq<char>, line: nat) -> int
    decreases line,
{
    if line == 0 {
        0
    } else {
        let p = line_start(s, (line - 1) as nat);
        let e = line_end(s, p);
        if e < s.len() {
            e + 1
        } else {
            s.len() as int
        }
    }
}

/// The first char index `j` in `[j0, le)` whose column, counted in UTF-16
/// units from `ls`, reaches `ch`; `le` where none does.
pub open spec fn column_char(s: Seq<char>, ls: int, le: int, ch: nat, j: int) -> int
    decreases le - j,
{
    if j >= le {
        le
    } else if utf16_len(s.subrange(ls, j)) >= ch {
        j
    } else {
        column_char(s, ls, le, ch, j + 1)
    }
}

/// The char index of a position: on its line (or at the end of the text),
/// at the first char whose column reaches the position's, else at the end
/// of the line.
pub open spec fn position_char(s: Seq<char>, p: Position) -> int {
    let ls = line_start(s, p.line as nat);
    column_char(s, ls, line_end(s, ls), p.character as nat, ls)
}

pub proof fn lemma_line_start(s: Seq<char>, line: nat)
    ensures
        0 <= line_start(s, line) <= s.len(),
    decreases line,
{
    if line > 0 {
        lemma_line_start(s, (line - 1) as nat);
        lemma_line_end(s, line_start(s, (line - 1) as nat));
    }
}

pub proof fn lemma_column_char(s: Seq<char>, ls: int, le: int, ch: nat, j: int)
    requires
        ls <= j <= le,
    ensures
        j <= column_char(s, ls, le, ch, j) <= le,
    decreases le - j,
{
    if j < le && utf16_len(s.subrange(ls, j)) < ch {
        lemma_column_char(s, ls, le, ch, j + 1);
    }
}

fn line_start_exec(s: &Vec<char>, line: u32) -> (r: usize)
    ensures
        r == line_start(s@, line as nat),
{
    let mut p: usize = 0;
    let mut l: u32 = 0;
    while l < line
        invariant
            l <= line,
            p == line_start(s@, l as nat),
            p <= s.len(),
        decreases line - l,
    {
        proof {
            lemma_line_end(s@, p as int);
        }
        let mut e: usize = p;
        while e < s.len() && s[e] != '\n'
            invariant
                p <= e <= s.len(),
                line_end(s@, p as int) == line_end(s@, e as int),
            decreases s.len() - e,
        {
            e += 1;
        }
        p = if e < s.len() {
            e + 1
        } else {
            s.len()
        };
        l += 1;
    }
    p
}

fn position_char_exec(s: &Vec<char>, p: Position) -> (r: usize)
    ensures
        r == position_char(s@, p),
        r <= s.len(),
{
    let ls = line_start_exec(s, p.line);
    proof {
        lemma_line_start(s@, p.line as nat);
        lemma_line_end(s@, ls as int);
    }
    let mut le: usize = ls;
    while le < s.len() && s[le] != '\n'
        invariant
            ls <= le <= s.len(),
            line_end(s@, ls as int) == line_end(s@, le as int),
        decreases s.len() - le,
    {
        le += 1;
    }
    let ghost t = s@.subrange(ls as int, le as int);
    let mut j: usize = ls;
    let mut units: u64 = 0;
    assert(s@.subrange(ls as int, ls as int) =~= Seq::<char>::empty());
    while j < le
        invariant
            ls <= j <= le <= s.len(),
            le == line_end(s@, ls as int),
            ls == line_start(s@, p.line as nat),
            units == utf16_len(s@.subrange(ls as int, j as int)),
            units <= p.character as u64 + 2,
            column_char(s@, ls as int, le as int, p.character as nat, ls as int) == column_char(
                s@,
                ls as int,
                le as int,
                p.character as nat,
                j as int,
            ),
        decreases le - j,
    {
        if units >= p.character as u64 {
            return j;
        }
        proof {
            let u = s@.subrange(ls as int, le as int);
            lemma_utf16_len_take_succ(u, j - ls);
            assert(u.take(j - ls) =~= s@.subrange(ls as int, j as int));
            assert(u.take(j - ls + 1) =~= s@.subrange(ls as int, j + 1));
        }
        let w: u64 = if (s[j] as u32) < 0x10000 {
            1
        } else {
            2
        };
        units = units + w;
        j += 1;
    }
    le
}

/// The byte offset of an LSP position in `content` (`position_char`, in
/// bytes).
pub fn position_to_byte_offset(content: &str, position: Position) -> (r: usize)
    ensures
        r == utf8_len(content@.take(position_char(content@, position))),
{
    let cs = chars_of(content);
    let n = str_byte_len(content);
    let k = position_char_exec(&cs, position);
    byte_offset(&cs, k)
}

/// A change as mathematical data.
pub struct ChangeModel {
    pub range: Option<Range>,
    pub text: Seq<char>,
}

pub open spec fn change_model(c: ContentChange) -> ChangeModel {
    ChangeModel { range: c.range, text: c.text@ }
}

/// The document after one change.
pub open spec fn apply_change(s: Seq<char>, c: ChangeModel) -> Seq<char> {
    match c.range {
        Some(r) => s.take(position_char(s, r.start)) + c.text + s.skip(position_char(s, r.end)),
        None => c.text,
    }
}

/// Whether a change can be made: its range does not end before it starts.
pub open spec fn change_ok(s: Seq<char>, c: ChangeModel) -> bool {
    match c.range {
        Some(r) => position_char(s, r.start) <= position_char(s, r.end),
        None => true,
    }
}

/// The document after the changes `cs[..n]`, in order.
pub open spec fn apply_changes_upto(s: Seq<char>, cs: Seq<ContentChange>, n: int) -> Seq<char>
    decreases n,
{
    if n <= 0 {
        s
    } else {
        apply_change(apply_changes_upto(s, cs, n - 1), change_model(cs[n - 1]))
    }
}

/// Whether each of the changes `cs[..n]` can be made where it falls.
pub open spec fn changes_ok_upto(s: Seq<char>, cs: Seq<ContentChange>, n: int) -> bool
    decreases n,
{
    n <= 0 || (changes_ok_upto(s, cs, n - 1) && change_ok(apply_changes_upto(s, cs, n - 1), change_model(cs[n - 1])))
}

/// Applies LSP content changes in order (`apply_changes_upto`). A change
/// whose range ends before it starts is refused by the caller's contract,
/// as `String::replace_range` would panic on it.
pub fn apply_content_changes(content: &mut String, changes: &[ContentChange])
    requires
        changes_ok_upto(old(content)@, changes@, changes.len() as int),
    ensures
        final(content)@ == apply_changes_upto(old(content)@, changes@, changes.len() as int),
{
    let ghost s0 = content@;
    let mut cur = chars_of(content.as_str());
    let mut k: usize = 0;
    while k < changes.len()
        invariant
            k <= changes.len(),
            cur@ == apply_changes_upto(s0, changes@, k as int),
            changes_ok_upto(s0, changes@, changes.len() as int),
        decreases changes.len() - k,
    {
        proof {
            lemma_changes_ok_prefix(s0, changes@, k + 1, changes.len() as int);
        }
        let c = &changes[k];
        let tc = chars_of(c.text.as_str());
        match c.range {
            Some(r) => {
                let a = position_char_exec(&cur, r.start);
                let b = position_char_exec(&cur, r.end);
                let mut next: Vec<char> = Vec::new();
                let mut i: usize = 0;
                while i < a
                    invariant
                        i <= a <= cur.len(),
                        next@ == cur@.take(i as int),
                    decreases a - i,
                {
                    next.push(cur[i]);
                    assert(next@ =~= cur@.take(i + 1));
                    i += 1;
                }
                crate::text::push_chars(&mut next, &tc);
                let ghost mid = next@;
                let mut i: usize = b;
                assert(cur@.subrange(b as int, b as int) =~= Seq::<char>::empty());
                while i < cur.len()
                    invariant
                        b <= i <= cur.len(),
                        next@ == mid + cur@.subrange(b as int, i as int),
                    decreases cur.len() - i,
                {
                    next.push(cur[i]);
                    assert(next@ =~= mid + cur@.subrange(b as int, i + 1));
                    i += 1;
                }
                assert(cur@.subrange(b as int, cur.len() as int) =~= cur@.skip(b as int));
                cur = next;
            },
            None => {
                cur = tc;
            },
        }
        k += 1;
    }
    *content = crate::text::string_from_chars(&cur);
}

proof fn lemma_changes_ok_prefix(s: Seq<char>, cs: Seq<ContentChange>, k: int, n: int)
    requires
        0 < k <= n,
        changes_ok_upto(s, cs, n),
    ensures
        changes_ok_upto(s, cs, k),
        change_ok(apply_changes_upto(s, cs, k - 1), change_model(cs[k - 1])),
    decreases n - k,
{
    if k < n {
        lemma_changes_ok_prefix(s, cs, k, n - 1);
    }
}

} // verus!
