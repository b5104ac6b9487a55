//! Text primitives shared by the note scanners: Unicode white space, UTF-8
//! byte lengths, `str::lines` splitting, decimal digits and string building.
use vstd::prelude::*;
use vstd::utf8::*;

verus! {

// ---------------------------------------------------------------------------
// White space
// ---------------------------------------------------------------------------

/// The Unicode `White_Space` property (the set that `char::is_whitespace`
/// and the regex class `\s` accept).
pub open spec fn is_ws(c: char) -> bool {
    ||| ('\u{9}' <= c && c <= '\u{d}')
    ||| c == ' '
    ||| c == '\u{85}'
    ||| c == '\u{a0}'
    ||| c == '\u{1680}'
    ||| ('\u{2000}' <= c && c <= '\u{200a}')
    ||| c == '\u{2028}'
    ||| c == '\u{2029}'
    ||| c == '\u{202f}'
    ||| c == '\u{205f}'
    ||| c == '\u{3000}'
}

pub fn is_whitespace(c: char) -> (r: bool)
    ensures
        r == is_ws(c),
{
    ('\u{9}' <= c && c <= '\u{d}') || c == ' ' || c == '\u{85}' || c == '\u{a0}' || c
        == '\u{1680}' || ('\u{2000}' <= c && c <= '\u{200a}') || c == '\u{2028}' || c
        == '\u{2029}' || c == '\u{202f}' || c == '\u{205f}' || c == '\u{3000}'
}

/// Number of leading white-space characters of `s`.
pub open spec fn ws_prefix_len(s: Seq<char>) -> nat
    decreases s.len(),
{
    if s.len() > 0 && is_ws(s[0]) {
        1 + ws_prefix_len(s.drop_first())
    } else {
        0
    }
}

/// `str::trim_start`.
pub open spec fn trim_start(s: Seq<char>) -> Seq<char> {
    s.skip(ws_prefix_len(s) as int)
}

/// Number of trailing white-space characters of `s`.
pub open spec fn ws_suffix_len(s: Seq<char>) -> nat
    decreases s.len(),
{
    if s.len() > 0 && is_ws(s.last()) {
        1 + ws_suffix_len(s.drop_last())
    } else {
        0
    }
}

/// `str::trim`: white space removed at both ends.
pub open spec fn trim(s: Seq<char>) -> Seq<char> {
    let t = trim_start(s);
    t.take(t.len() - ws_suffix_len(t))
}

pub proof fn lemma_ws_prefix_len_bound(s: Seq<char>)
    ensures
        ws_prefix_len(s) <= s.len(),
        forall|k: int| 0 <= k < ws_prefix_len(s) ==> is_ws(#[trigger] s[k]),
        ws_prefix_len(s) < s.len() ==> !is_ws(s[ws_prefix_len(s) as int]),
    decreases s.len(),
{
    if s.len() > 0 && is_ws(s[0]) {
        lemma_ws_prefix_len_bound(s.drop_first());
        assert forall|k: int| 0 <= k < ws_prefix_len(s) implies is_ws(#[trigger] s[k]) by {
            if k > 0 {
                assert(s[k] == s.drop_first()[k - 1]);
            }
        }
    }
}

pub proof fn lemma_ws_suffix_len_bound(s: Seq<char>)
    ensures
        ws_suffix_len(s) <= s.len(),
        forall|k: int| s.len() - ws_suffix_len(s) <= k < s.len() ==> is_ws(#[trigger] s[k]),
        ws_suffix_len(s) < s.len() ==> !is_ws(s[s.len() - ws_suffix_len(s) - 1]),
    decreases s.len(),
{
    if s.len() > 0 && is_ws(s.last()) {
        lemma_ws_suffix_len_bound(s.drop_last());
        assert forall|k: int| s.len() - ws_suffix_len(s) <= k < s.len() implies is_ws(
            #[trigger] s[k],
        ) by {
            if k < s.len() - 1 {
                assert(s[k] == s.drop_last()[k]);
            }
        }
    }
}

/// Counts the leading white space of `s[from..to]`.
pub fn ws_prefix_count(s: &Vec<char>, from: usize, to: usize) -> (n: usize)
    requires
        from <= to <= s.len(),
    ensures
        n == ws_prefix_len(s@.subrange(from as int, to as int)),
        from + n <= to,
{
    let ghost t = s@.subrange(from as int, to as int);
    let mut i = from;
    while i < to && is_whitespace(s[i])
        invariant
            from <= i <= to <= s.len(),
            t == s@.subrange(from as int, to as int),
            forall|k: int| from <= k < i ==> is_ws(#[trigger] s@[k]),
            ws_prefix_len(t) == (i - from) + ws_prefix_len(s@.subrange(i as int, to as int)),
        decreases to - i,
    {
        let ghost u = s@.subrange(i as int, to as int);
        assert(u.drop_first() =~= s@.subrange(i + 1, to as int));
        i += 1;
    }
    i - from
}


/// Count of trailing white space of `s[from..to]`.
pub fn ws_suffix_count(s: &Vec<char>, from: usize, to: usize) -> (n: usize)
    requires
        from <= to <= s.len(),
    ensures
        n == ws_suffix_len(s@.subrange(from as int, to as int)),
        from + n <= to,
{
    let ghost t = s@.subrange(from as int, to as int);
    let mut j = to;
    while j > from && is_whitespace(s[j - 1])
        invariant
            from <= j <= to <= s.len(),
            t == s@.subrange(from as int, to as int),
            ws_suffix_len(t) == (to - j) + ws_suffix_len(s@.subrange(from as int, j as int)),
        decreases j - from,
    {
        let ghost u = s@.subrange(from as int, j as int);
        assert(u.drop_last() =~= s@.subrange(from as int, j - 1));
        j -= 1;
    }
    to - j
}

/// The char range of `trim(s[from..to])` inside `s`.
pub fn trim_range(s: &Vec<char>, from: usize, to: usize) -> (r: (usize, usize))
    requires
        from <= to <= s.len(),
    ensures
        from <= r.0 <= r.1 <= to,
        s@.subrange(r.0 as int, r.1 as int) == trim(s@.subrange(from as int, to as int)),
{
    let w = ws_prefix_count(s, from, to);
    let t = ws_suffix_count(s, from + w, to);
    proof {
        let u = s@.subrange(from as int, to as int);
        assert(trim_start(u) =~= s@.subrange(from + w, to as int));
        assert(s@.subrange(from + w, to - t) =~= trim(u));
    }
    (from + w, to - t)
}

// ---------------------------------------------------------------------------
// UTF-8 byte lengths
// ---------------------------------------------------------------------------

/// Number of bytes of the UTF-8 encoding of `c`.
pub open spec fn char_len(c: char) -> nat {
    if (c as u32) < 0x80 {
        1
    } else if (c as u32) < 0x800 {
        2
    } else if (c as u32) < 0x10000 {
        3
    } else {
        4
    }
}

/// Number of bytes of the UTF-8 encoding of `s`.
pub open spec fn utf8_len(s: Seq<char>) -> nat
    decreases s.len(),
{
    if s.len() == 0 {
        0
    } else {
        char_len(s[0]) + utf8_len(s.drop_first())
    }
}

pub proof fn lemma_utf8_len_concat(a: Seq<char>, b: Seq<char>)
    ensures
        utf8_len(a + b) == utf8_len(a) + utf8_len(b),
    decreases a.len(),
{
    if a.len() == 0 {
        assert(a + b =~= b);
    } else {
        assert((a + b).drop_first() =~= a.drop_first() + b);
        lemma_utf8_len_concat(a.drop_first(), b);
    }
}

pub proof fn lemma_utf8_len_single(c: char)
    ensures
        utf8_len(seq![c]) == char_len(c),
{
    assert(seq![c].drop_first() =~= Seq::<char>::empty());
    reveal_with_fuel(utf8_len, 2);
}

/// The byte count of a prefix grows by the width of the next char.
pub proof fn lemma_utf8_len_take_succ(s: Seq<char>, i: int)
    requires
        0 <= i < s.len(),
    ensures
        utf8_len(s.take(i + 1)) == utf8_len(s.take(i)) + char_len(s[i]),
{
    assert(s.take(i + 1) =~= s.take(i) + seq![s[i]]);
    lemma_utf8_len_concat(s.take(i), seq![s[i]]);
    lemma_utf8_len_single(s[i]);
}

/// A subrange never has more bytes than the whole.
pub proof fn lemma_utf8_len_subrange(s: Seq<char>, i: int, j: int)
    requires
        0 <= i <= j <= s.len(),
    ensures
        utf8_len(s.subrange(i, j)) <= utf8_len(s),
        utf8_len(s.take(i)) + utf8_len(s.subrange(i, j)) == utf8_len(s.take(j)),
{
    assert(s =~= s.take(i) + s.subrange(i, j) + s.skip(j));
    lemma_utf8_len_concat(s.take(i), s.subrange(i, j));
    lemma_utf8_len_concat(s.take(i) + s.subrange(i, j), s.skip(j));
    assert(s.take(j) =~= s.take(i) + s.subrange(i, j));
}

pub proof fn lemma_utf8_len_ge_len(s: Seq<char>)
    ensures
        utf8_len(s) >= s.len(),
    decreases s.len(),
{
    if s.len() > 0 {
        lemma_utf8_len_ge_len(s.drop_first());
    }
}

proof fn lemma_encode_utf8_len(s: Seq<char>)
    ensures
        encode_utf8(s).len() == utf8_len(s),
    decreases s.len(),
{
    if s.len() > 0 {
        lemma_encode_utf8_len(s.drop_first());
        let c = s[0];
        char_is_scalar(c);
        assert(encode_scalar(c as u32).len() == char_len(c));
    }
}

/// Byte width of one char.
pub fn char_byte_len(c: char) -> (n: usize)
    ensures
        n == char_len(c),
{
    let v = c as u32;
    if v < 0x80 {
        1
    } else if v < 0x800 {
        2
    } else if v < 0x10000 {
        3
    } else {
        4
    }
}

/// The byte length of `s`, with the fact that it fits in a `usize`.
pub fn str_byte_len(s: &str) -> (n: usize)
    ensures
        n == utf8_len(s@),
{
    let b = s.as_bytes();
    proof {
        lemma_encode_utf8_len(s@);
    }
    b.len()
}

/// Byte offset of char index `k` in `s` (the byte length of `s[..k]`).
pub fn byte_offset(s: &Vec<char>, k: usize) -> (n: usize)
    requires
        k <= s.len(),
        utf8_len(s@) <= usize::MAX,
    ensures
        n == utf8_len(s@.take(k as int)),
{
    let mut i: usize = 0;
    let mut n: usize = 0;
    while i < k
        invariant
            i <= k <= s.len(),
            utf8_len(s@) <= usize::MAX,
            n == utf8_len(s@.take(i as int)),
        decreases k - i,
    {
        proof {
            lemma_utf8_len_take_succ(s@, i as int);
            lemma_utf8_len_subrange(s@, 0, i + 1);
            assert(s@.subrange(0, i + 1) =~= s@.take(i + 1));
        }
        n = n + char_byte_len(s[i]);
        i += 1;
    }
    assert(s@.take(0) =~= Seq::<char>::empty());
    n
}

// ---------------------------------------------------------------------------
// Decimal digits (regex `\d`)
// ---------------------------------------------------------------------------

/// Whether `c` matches the regex class `\d` of the `regex` crate, that is the
/// Unicode general category `Nd`.
pub uninterp spec fn is_decimal_digit(c: char) -> bool;

/// `regex::Regex::is_match` with the pattern `\A\d\z` on the one-char text
/// `c`. The contract claims that the answer is `is_decimal_digit(c)` and,
/// as the crate documents for ASCII, that an ASCII char matches exactly when
/// it is one of `0`..`9`.
#[verifier::external_body]
pub fn regex_decimal_digit(c: char) -> (r: bool)
    ensures
        r == is_decimal_digit(c),
        (c as u32) < 0x80 ==> (r <==> ('0' <= c && c <= '9')),
{
    let mut buf = [0u8;4];
    let text: &str = c.encode_utf8(&mut buf);
    regex::Regex::new(r"\A\d\z").unwrap().is_match(text)
}

/// ASCII decimal digit (`char::is_ascii_digit`).
pub open spec fn is_ascii_digit(c: char) -> bool {
    '0' <= c && c <= '9'
}

// ---------------------------------------------------------------------------
// Building strings
// ---------------------------------------------------------------------------

/// `String::push`: appends one char.
#[verifier::external_body]
fn string_push(s: &mut String, c: char)
    ensures
        final(s)@ == old(s)@.push(c),
{
    s.push(c);
}

/// A `String` holding the chars `v[from..to]`.
pub fn string_from_range(v: &Vec<char>, from: usize, to: usize) -> (s: String)
    requires
        from <= to <= v.len(),
    ensures
        s@ == v@.subrange(from as int, to as int),
{
    let mut s = String::new();
    let mut i = from;
    while i < to
        invariant
            from <= i <= to <= v.len(),
            s@ == v@.subrange(from as int, i as int),
        decreases to - i,
    {
        string_push(&mut s, v[i]);
        assert(v@.subrange(from as int, i + 1) =~= v@.subrange(from as int, i as int).push(
            v@[i as int],
        ));
        i += 1;
    }
    s
}

pub fn string_from_chars(v: &Vec<char>) -> (s: String)
    ensures
        s@ == v@,
{
    let s = string_from_range(v, 0, v.len());
    assert(v@.subrange(0, v.len() as int) =~= v@);
    s
}

/// The chars of `s` in a vector.
pub fn chars_of(s: &str) -> (v: Vec<char>)
    ensures
        v@ == s@,
{
    let mut v: Vec<char> = Vec::new();
    for c in it: s.chars()
        invariant
            v@ == it.seq().take(it.index() as int),
    {
        v.push(c);
    }
    v
}

/// Whether two char slices hold the same chars.
pub fn chars_eq(a: &Vec<char>, b: &Vec<char>) -> (r: bool)
    ensures
        r == (a@ == b@),
{
    if a.len() != b.len() {
        return false;
    }
    let mut i: usize = 0;
    while i < a.len()
        invariant
            a.len() == b.len(),
            i <= a.len(),
            forall|k: int| 0 <= k < i ==> a@[k] == b@[k],
        decreases a.len() - i,
    {
        if a[i] != b[i] {
            return false;
        }
        i += 1;
    }
    assert(a@ =~= b@);
    true
}

/// `str == str`.
pub fn str_eq(a: &str, b: &str) -> (r: bool)
    ensures
        r == (a@ == b@),
{
    let va = chars_of(a);
    let vb = chars_of(b);
    chars_eq(&va, &vb)
}


// ---------------------------------------------------------------------------
// Lines (`str::lines`)
// ---------------------------------------------------------------------------

/// Index of the first `'\n'` at or after `i`, or `s.len()`.
pub open spec fn line_end(s: Seq<char>, i: int) -> int
    decreases s.len() - i,
{
    if i >= s.len() || s[i] == '\n' {
        i
    } else {
        line_end(s, i + 1)
    }
}

pub proof fn lemma_line_end(s: Seq<char>, i: int)
    requires
        0 <= i <= s.len(),
    ensures
        i <= line_end(s, i) <= s.len(),
        line_end(s, i) < s.len() ==> s[line_end(s, i)] == '\n',
        forall|k: int| i <= k < line_end(s, i) ==> s[k] != '\n',
    decreases s.len() - i,
{
    if i < s.len() && s[i] != '\n' {
        lemma_line_end(s, i + 1);
    }
}

/// Removes one trailing `'\r'`.
pub open spec fn strip_cr(l: Seq<char>) -> Seq<char> {
    if l.len() > 0 && l.last() == '\r' {
        l.drop_last()
    } else {
        l
    }
}

/// The lines of `s` that start at or after index `i` (which must be the
/// start of a line).
pub open spec fn lines_from(s: Seq<char>, i: int) -> Seq<Seq<char>>
    decreases s.len() - i,
    via lines_from_decreases
{
    if i < 0 || i >= s.len() {
        seq![]
    } else {
        let e = line_end(s, i);
        let raw = s.subrange(i, e);
        if e < s.len() {
            seq![strip_cr(raw)] + lines_from(s, e + 1)
        } else {
            seq![raw]
        }
    }
}

#[via_fn]
proof fn lines_from_decreases(s: Seq<char>, i: int) {
    if !(i < 0 || i >= s.len()) {
        lemma_line_end(s, i);
    }
}

/// `str::lines`: split at `'\n'`, a `'\r'` before the `'\n'` dropped, and no
/// empty line after a final `'\n'`.
pub open spec fn lines(s: Seq<char>) -> Seq<Seq<char>> {
    lines_from(s, 0)
}

/// The views of a vector of lines.
pub open spec fn views(v: Seq<Vec<char>>) -> Seq<Seq<char>> {
    v.map_values(|l: Vec<char>| l@)
}

/// Splits `s` into its lines.
pub fn split_lines(s: &Vec<char>) -> (ls: Vec<Vec<char>>)
    ensures
        views(ls@) == lines(s@),
{
    let mut ls: Vec<Vec<char>> = Vec::new();
    let mut i: usize = 0;
    let n = s.len();
    while i < n
        invariant
            n == s.len(),
            i <= n,
            lines(s@) == views(ls@) + lines_from(s@, i as int),
        decreases n - i,
    {
        let mut e = i;
        while e < n && s[e] != '\n'
            invariant
                i <= e <= n == s.len(),
                line_end(s@, i as int) == line_end(s@, e as int),
            decreases n - e,
        {
            e += 1;
        }
        proof {
            lemma_line_end(s@, i as int);
        }
        let mut stop = e;
        if e < n && e > i && s[e - 1] == '\r' {
            stop = e - 1;
        }
        let mut line: Vec<char> = Vec::new();
        let mut k = i;
        while k < stop
            invariant
                i <= k <= stop <= e <= n == s.len(),
                line@ == s@.subrange(i as int, k as int),
            decreases stop - k,
        {
            line.push(s[k]);
            assert(s@.subrange(i as int, k + 1) =~= s@.subrange(i as int, k as int).push(s@[k as int]));
            k += 1;
        }
        let ghost raw = s@.subrange(i as int, e as int);
        assert(line@ =~= (if (e as int) < s@.len() { strip_cr(raw) } else { raw }));
        let ghost before = ls@;
        ls.push(line);
        assert(views(ls@) =~= views(before) + seq![line@]);
        if e < n {
            assert(lines_from(s@, i as int) =~= seq![line@] + lines_from(s@, e + 1));
        } else {
            assert(lines_from(s@, i as int) =~= seq![line@]);
            assert(lines_from(s@, n as int) =~= Seq::<Seq<char>>::empty());
        }
        if e == n {
            i = n;
        } else {
            i = e + 1;
        }
    }
    assert(lines_from(s@, i as int) =~= Seq::<Seq<char>>::empty());
    ls
}

/// `lines.join("\n")`.
pub open spec fn join_lines(ls: Seq<Seq<char>>) -> Seq<char>
    decreases ls.len(),
{
    if ls.len() == 0 {
        seq![]
    } else if ls.len() == 1 {
        ls[0]
    } else {
        join_lines(ls.drop_last()) + seq!['\n'] + ls.last()
    }
}

/// `lines.join("\n")`, with one more `'\n'` when `trailing` holds.
pub open spec fn rejoin(ls: Seq<Seq<char>>, trailing: bool) -> Seq<char> {
    if trailing {
        join_lines(ls) + seq!['\n']
    } else {
        join_lines(ls)
    }
}

/// Whether `s` ends with `'\n'`.
pub open spec fn ends_with_newline(s: Seq<char>) -> bool {
    s.len() > 0 && s.last() == '\n'
}

/// Builds `rejoin(views(ls), trailing)`.
pub fn join_with_newlines(ls: &Vec<Vec<char>>, trailing: bool) -> (out: String)
    ensures
        out@ == rejoin(views(ls@), trailing),
{
    let mut out = String::new();
    let mut i: usize = 0;
    while i < ls.len()
        invariant
            i <= ls.len(),
            out@ == join_lines(views(ls@.take(i as int))),
        decreases ls.len() - i,
    {
        let ghost prev = out@;
        if i > 0 {
            string_push(&mut out, '\n');
        }
        let line = &ls[i];
        let mut k: usize = 0;
        while k < line.len()
            invariant
                k <= line.len(),
                i > 0 ==> out@ == prev + seq!['\n'] + line@.take(k as int),
                i == 0 ==> out@ == prev + line@.take(k as int),
            decreases line.len() - k,
        {
            string_push(&mut out, line[k]);
            assert(line@.take(k + 1) =~= line@.take(k as int).push(line@[k as int]));
            k += 1;
        }
        assert(line@.take(line.len() as int) =~= line@);
        let ghost vt = views(ls@.take(i + 1));
        assert(vt.drop_last() =~= views(ls@.take(i as int)));
        assert(vt.last() == ls@[i as int]@);
        if i == 0 {
            assert(views(ls@.take(0)) =~= Seq::<Seq<char>>::empty());
            assert(out@ =~= join_lines(vt));
        }
        i += 1;
    }
    assert(ls@.take(ls.len() as int) =~= ls@);
    if trailing {
        string_push(&mut out, '\n');
    }
    out
}

/// Whether `s` ends with `'\n'`.
pub fn ends_with_nl(s: &Vec<char>) -> (r: bool)
    ensures
        r == ends_with_newline(s@),
{
    s.len() > 0 && s[s.len() - 1] == '\n'
}

/// Appends `s` to `out`.
pub fn push_str(out: &mut Vec<char>, s: &str)
    ensures
        final(out)@ == old(out)@ + s@,
{
    let v = chars_of(s);
    push_chars(out, &v);
}

/// Appends `v` to `out`.
pub fn push_chars(out: &mut Vec<char>, v: &Vec<char>)
    ensures
        final(out)@ == old(out)@ + v@,
{
    let ghost start = out@;
    let mut k: usize = 0;
    while k < v.len()
        invariant
            k <= v.len(),
            out@ == start + v@.take(k as int),
        decreases v.len() - k,
    {
        out.push(v[k]);
        assert(v@.take(k + 1) =~= v@.take(k as int).push(v@[k as int]));
        k += 1;
    }
    assert(v@.take(v.len() as int) =~= v@);
}

/// `parts.join(sep)`.
pub open spec fn join_sep(parts: Seq<Seq<char>>, sep: Seq<char>) -> Seq<char>
    decreases parts.len(),
{
    if parts.len() == 0 {
        seq![]
    } else if parts.len() == 1 {
        parts[0]
    } else {
        join_sep(parts.drop_last(), sep) + sep + parts.last()
    }
}

/// Builds `join_sep(views(parts), sep)`.
pub fn join_parts(parts: &Vec<Vec<char>>, sep: &str) -> (r: Vec<char>)
    ensures
        r@ == join_sep(views(parts@), sep@),
{
    let mut out: Vec<char> = Vec::new();
    let mut i: usize = 0;
    while i < parts.len()
        invariant
            i <= parts.len(),
            out@ == join_sep(views(parts@.take(i as int)), sep@),
        decreases parts.len() - i,
    {
        let ghost vt = views(parts@.take(i + 1));
        assert(vt.drop_last() =~= views(parts@.take(i as int)));
        assert(vt.last() == parts@[i as int]@);
        if i > 0 {
            push_str(&mut out, sep);
        } else {
            assert(views(parts@.take(0)) =~= Seq::<Seq<char>>::empty());
        }
        push_chars(&mut out, &parts[i]);
        i += 1;
    }
    assert(parts@.take(parts.len() as int) =~= parts@);
    out
}

// ---------------------------------------------------------------------------
// Replacing (`str::replace`)
// ---------------------------------------------------------------------------

/// `s` with every occurrence of the non-empty `pat`, found from the left
/// without overlap, replaced by `rep`.
pub open spec fn replace_all(s: Seq<char>, pat: Seq<char>, rep: Seq<char>) -> Seq<char>
    decreases s.len(),
{
    if pat.len() == 0 || s.len() < pat.len() {
        s
    } else if s.take(pat.len() as int) == pat {
        rep + replace_all(s.skip(pat.len() as int), pat, rep)
    } else {
        seq![s[0]] + replace_all(s.skip(1), pat, rep)
    }
}

fn matches_at(s: &Vec<char>, i: usize, pat: &Vec<char>) -> (r: bool)
    requires
        i + pat.len() <= s.len(),
    ensures
        r == (s@.skip(i as int).take(pat.len() as int) == pat@),
{
    let mut k: usize = 0;
    while k < pat.len()
        invariant
            k <= pat.len(),
            i + pat.len() <= s.len(),
            forall|j: int| 0 <= j < k ==> s@[i + j] == pat@[j],
        decreases pat.len() - k,
    {
        if s[i + k] != pat[k] {
            assert(s@.skip(i as int).take(pat.len() as int)[k as int] != pat@[k as int]);
            return false;
        }
        k += 1;
    }
    assert(s@.skip(i as int).take(pat.len() as int) =~= pat@);
    true
}

/// `s.replace(pat, rep)` for a non-empty `pat` (`replace_all`).
pub fn replace_str(s: &str, pat: &str, rep: &str) -> (r: String)
    requires
        pat@.len() > 0,
    ensures
        r@ == replace_all(s@, pat@, rep@),
{
    let cs = chars_of(s);
    let ps = chars_of(pat);
    let rs = chars_of(rep);
    let mut out: Vec<char> = Vec::new();
    let mut i: usize = 0;
    assert(cs@.skip(0) =~= cs@);
    while i < cs.len()
        invariant
            i <= cs.len(),
            cs@ == s@,
            ps@ == pat@,
            rs@ == rep@,
            ps@.len() > 0,
            out@ + replace_all(cs@.skip(i as int), ps@, rs@) == replace_all(s@, pat@, rep@),
        decreases cs.len() - i,
    {
        let ghost t = cs@.skip(i as int);
        if ps.len() <= cs.len() - i && matches_at(&cs, i, &ps) {
            assert(t.take(ps@.len() as int) == ps@);
            assert(t.skip(ps@.len() as int) =~= cs@.skip(i + ps.len()));
            let ghost before = out@;
            push_chars(&mut out, &rs);
            assert(out@ + replace_all(cs@.skip(i + ps.len()), ps@, rs@) =~= before + replace_all(t, ps@, rs@));
            i += ps.len();
        } else {
            if ps.len() <= cs.len() - i {
                assert(t.take(ps@.len() as int) != ps@);
            }
            assert(t.skip(1) =~= cs@.skip(i + 1));
            assert(t[0] == cs@[i as int]);
            let ghost before = out@;
            let ghost rest = replace_all(cs@.skip(i + 1), ps@, rs@);
            out.push(cs[i]);
            if ps.len() <= cs.len() - i {
                assert(replace_all(t, ps@, rs@) == seq![t[0]] + rest);
            } else {
                assert(replace_all(t, ps@, rs@) == t);
                assert(replace_all(cs@.skip(i + 1), ps@, rs@) == cs@.skip(i + 1));
            }
            assert(out@ + rest =~= before + replace_all(t, ps@, rs@));
            i += 1;
        }
    }
    assert(cs@.skip(cs.len() as int) =~= Seq::<char>::empty());
    assert(out@ + Seq::<char>::empty() =~= out@);
    string_from_chars(&out)
}

} // verus!
