//! The note ID under the cursor, for finding references: a metadata ID in
//! the index, or a link `@ID`, `<ID>` or `"ID"` on a line of a note.
use vstd::prelude::*;
use vstd::utf8::encode_utf8;
use crate::cycle::{digit_char, digit_exec};
use crate::metadata::{id_at_position as metadata_id_at, position_at_from, positions_of};
use crate::text::{lines, split_lines, string_from_chars, views};

verus! {

pub open spec fn is_digit_byte(b: u8) -> bool {
    48 <= b && b <= 57
}

/// What closes an ID after its opening byte: nothing after `@`, `>` after
/// `<`, `"` after `"`; none for any other byte.
pub open spec fn closing_of(b: u8) -> Option<Option<u8>> {
    if b == 64 {
        Some(None)
    } else if b == 60 {
        Some(Some(62u8))
    } else if b == 34 {
        Some(Some(34u8))
    } else {
        None
    }
}

/// Whether an ID opens at byte `i` of `bs` and the column `col` falls on it:
/// the opening byte, ten ASCII digits, the closing byte where there is one,
/// and `i <= col <= ` the end of the digits.
pub open spec fn id_match_at(bs: Seq<u8>, i: int, col: int) -> bool {
    match closing_of(bs[i]) {
        None => false,
        Some(close) => {
            let end = i + 11;
            &&& end <= bs.len()
            &&& forall|k: int| i + 1 <= k < end ==> is_digit_byte(#[trigger] bs[k])
            &&& match close {
                Some(d) => end < bs.len() && bs[end] == d,
                None => true,
            }
            &&& i <= col <= end
        },
    }
}

/// The first byte index from `i` at which an ID matches.
pub open spec fn first_id_match(bs: Seq<u8>, col: int, i: int) -> Option<int>
    decreases bs.len() - i,
{
    if i < 0 || i >= bs.len() {
        None
    } else if id_match_at(bs, i, col) {
        Some(i)
    } else {
        first_id_match(bs, col, i + 1)
    }
}

/// Digit bytes as text.
pub open spec fn digits_text(bs: Seq<u8>) -> Seq<char> {
    bs.map_values(|b: u8| digit_char((b - 48) as nat))
}

/// The ID at the first match, where there is one.
pub open spec fn id_at_col(bs: Seq<u8>, col: int) -> Option<Seq<char>> {
    match first_id_match(bs, col, 0) {
        Some(i) => Some(digits_text(bs.subrange(i + 1, i + 11))),
        None => None,
    }
}

fn id_match_exec(bs: &[u8], i: usize, col: usize) -> (r: bool)
    requires
        i < bs.len(),
    ensures
        r == id_match_at(bs@, i as int, col as int),
{
    let b = bs[i];
    let close: Option<u8> = if b == 64 {
        None
    } else if b == 60 {
        Some(62u8)
    } else if b == 34 {
        Some(34u8)
    } else {
        return false;
    };
    if bs.len() < 11 || i > bs.len() - 11 {
        return false;
    }
    let end = i + 11;
    let mut k: usize = i + 1;
    while k < end
        invariant
            i + 1 <= k <= end <= bs.len(),
            end == i + 11,
            forall|j: int| i + 1 <= j < k ==> is_digit_byte(#[trigger] bs@[j]),
        decreases end - k,
    {
        if !(48 <= bs[k] && bs[k] <= 57) {
            return false;
        }
        k += 1;
    }
    let closed = match close {
        Some(d) => end < bs.len() && bs[end] == d,
        None => true,
    };
    closed && i <= col && col <= end
}

/// The ID whose link covers byte column `col` of `line` (`id_at_col` of the
/// line's UTF-8 bytes).
pub fn find_id_at_col(line: &str, col: usize) -> (r: Option<String>)
    ensures
        match id_at_col(encode_utf8(line@), col as int) {
            Some(id) => r is Some && r->0@ == id,
            None => r is None,
        },
{
    let bs = line.as_bytes();
    let ghost b = encode_utf8(line@);
    assert(bs@ == b);
    let mut i: usize = 0;
    while i < bs.len()
        invariant
            i <= bs.len(),
            bs@ == b,
            b == encode_utf8(line@),
            first_id_match(b, col as int, 0) == first_id_match(b, col as int, i as int),
        decreases bs.len() - i,
    {
        if id_match_exec(bs, i, col) {
            assert(first_id_match(b, col as int, i as int) == Some(i as int));
            let mut out: Vec<char> = Vec::new();
            assert(out@ =~= digits_text(b.subrange(i + 1, i + 1)));
            let mut k: usize = i + 1;
            while k < i + 11
                invariant
                    i + 1 <= k <= i + 11 <= bs.len(),
                    bs@ == b,
                    forall|j: int| i + 1 <= j < i + 11 ==> is_digit_byte(#[trigger] b[j]),
                    out@ == digits_text(b.subrange(i + 1, k as int)),
                    first_id_match(b, col as int, 0) == Some(i as int),
                decreases i + 11 - k,
            {
                assert(is_digit_byte(b[k as int]));
                out.push(digit_exec((bs[k] - 48) as u64));
                assert(out@ =~= digits_text(b.subrange(i + 1, k + 1)));
                k += 1;
            }
            return Some(string_from_chars(&out));
        }
        i += 1;
    }
    None
}

/// The ID under the cursor at `line_idx`/`col` of `content`: a metadata ID
/// where the index has one there, else a link on that line.
pub open spec fn reference_id_at(content: Seq<char>, line_idx: int, col: int) -> Option<Seq<char>> {
    match position_at_from(positions_of(content), 0, line_idx, col) {
        Some(p) => Some(p.target_id),
        None => if 0 <= line_idx < lines(content).len() {
            id_at_col(encode_utf8(lines(content)[line_idx]), col)
        } else {
            None
        },
    }
}

/// The ID under the cursor (`reference_id_at`).
pub fn id_at_position(content: &str, line_idx: usize, col: usize) -> (r: Option<String>)
    ensures
        match reference_id_at(content@, line_idx as int, col as int) {
            Some(id) => r is Some && r->0@ == id,
            None => r is None,
        },
{
    match metadata_id_at(content, line_idx, col) {
        Some(p) => return Some(p.target_id),
        None => {},
    }
    let cs = crate::text::chars_of(content);
    let ls = split_lines(&cs);
    if line_idx >= ls.len() {
        return None;
    }
    let line = string_from_chars(&ls[line_idx]);
    assert(views(ls@)[line_idx as int] == ls@[line_idx as int]@);
    find_id_at_col(line.as_str(), col)
}

} // verus!
