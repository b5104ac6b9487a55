//! Reader for Reconcile DSL rule files: a lexer for the s-expression syntax
//! and a recursive-descent parser into a `Module`.
//!
//! Syntax: `;` starts a comment to the end of the line; `"..."` is a string
//! literal (`\n`, `\t` and `\<c>` escapes); every other run of characters
//! up to whitespace, `(`, `)`, `"` or `;` is an atom. Atoms `true`/`false`,
//! `nil`, the status names, the writeback names and decimal integers are
//! literals; all other atoms are symbols.
use vstd::prelude::*;
use crate::reconcile::ast::{
    default_policy, CyclePolicy, Expr, ExprModel, Module, ModuleModel, Policy, Rule, RuleModel,
};
use crate::reconcile::types::{
    status_from_name, writeback_from_name, CheckboxWriteback, ParseError, Status, Value, ValueModel,
};
use crate::text::{chars_of, is_whitespace, is_ws, string_from_chars, string_from_range};

verus! {

/// A lexical token as plain values.
pub enum Tok {
    LParen,
    RParen,
    Str(Seq<char>),
    Atom(Seq<char>),
}

/// A lexical token.
pub enum Token {
    LParen,
    RParen,
    Str(String),
    Atom(String),
}

impl View for Token {
    type V = Tok;

    open spec fn view(&self) -> Tok {
        match self {
            Token::LParen => Tok::LParen,
            Token::RParen => Tok::RParen,
            Token::Str(s) => Tok::Str(s@),
            Token::Atom(a) => Tok::Atom(a@),
        }
    }
}

pub open spec fn toks(s: Seq<Token>) -> Seq<Tok> {
    s.map_values(|t: Token| t@)
}

/// A parse error as plain values.
pub enum ParseErrorModel {
    UnexpectedEof,
    UnexpectedToken(Seq<char>, Seq<char>),
    InvalidExprHead(Seq<char>),
    DuplicateRule(Seq<char>),
    InvalidPolicyKey(Seq<char>),
    InvalidPolicyValue(Seq<char>, Seq<char>),
}

impl View for ParseError {
    type V = ParseErrorModel;

    open spec fn view(&self) -> ParseErrorModel {
        match self {
            ParseError::UnexpectedEof => ParseErrorModel::UnexpectedEof,
            ParseError::UnexpectedToken { got, expected } => ParseErrorModel::UnexpectedToken(
                got@,
                expected@,
            ),
            ParseError::InvalidExprHead(h) => ParseErrorModel::InvalidExprHead(h@),
            ParseError::DuplicateRule(n) => ParseErrorModel::DuplicateRule(n@),
            ParseError::InvalidPolicyKey(k) => ParseErrorModel::InvalidPolicyKey(k@),
            ParseError::InvalidPolicyValue { key, value } => ParseErrorModel::InvalidPolicyValue(
                key@,
                value@,
            ),
        }
    }
}

// ---------------------------------------------------------------------------
// Lexer
// ---------------------------------------------------------------------------

/// Characters that end an atom.
pub open spec fn is_delim(c: char) -> bool {
    is_ws(c) || c == '(' || c == ')' || c == '"' || c == ';'
}

/// First index at or after `i` that holds a delimiter, or the end.
pub open spec fn atom_end(s: Seq<char>, i: int) -> int
    decreases s.len() - i,
{
    if i < 0 || i >= s.len() || is_delim(s[i]) {
        i
    } else {
        atom_end(s, i + 1)
    }
}

/// First index at or after `i` that holds a newline, or the end.
pub open spec fn comment_end(s: Seq<char>, i: int) -> int
    decreases s.len() - i,
{
    if i < 0 || i >= s.len() || s[i] == '\n' {
        i
    } else {
        comment_end(s, i + 1)
    }
}

pub open spec fn unescape(c: char) -> char {
    if c == 'n' {
        '\n'
    } else if c == 't' {
        '\t'
    } else {
        c
    }
}

/// The contents of a string literal whose body starts at `k`, and the
/// index past its closing quote; `None` when it is not closed.
pub open spec fn str_lit(s: Seq<char>, k: int) -> Option<(Seq<char>, int)>
    decreases s.len() - k,
{
    if k < 0 || k >= s.len() {
        None
    } else if s[k] == '"' {
        Some((seq![], k + 1))
    } else if s[k] == '\\' {
        if k + 1 >= s.len() {
            None
        } else {
            match str_lit(s, k + 2) {
                Some((r, j)) => Some((seq![unescape(s[k + 1])] + r, j)),
                None => None,
            }
        }
    } else {
        match str_lit(s, k + 1) {
            Some((r, j)) => Some((seq![s[k]] + r, j)),
            None => None,
        }
    }
}

pub proof fn lemma_atom_end(s: Seq<char>, i: int)
    requires
        0 <= i <= s.len(),
    ensures
        i <= atom_end(s, i) <= s.len(),
        forall|k: int| i <= k < atom_end(s, i) ==> !is_delim(#[trigger] s[k]),
        atom_end(s, i) < s.len() ==> is_delim(s[atom_end(s, i)]),
    decreases s.len() - i,
{
    if i < s.len() && !is_delim(s[i]) {
        lemma_atom_end(s, i + 1);
    }
}

pub proof fn lemma_comment_end(s: Seq<char>, i: int)
    requires
        0 <= i <= s.len(),
    ensures
        i <= comment_end(s, i) <= s.len(),
    decreases s.len() - i,
{
    if i < s.len() && s[i] != '\n' {
        lemma_comment_end(s, i + 1);
    }
}

pub proof fn lemma_str_lit(s: Seq<char>, k: int)
    requires
        0 <= k,
    ensures
        str_lit(s, k) matches Some((r, j)) ==> k < j <= s.len(),
    decreases s.len() - k,
{
    if 0 <= k < s.len() && s[k] != '"' {
        if s[k] == '\\' {
            if k + 1 < s.len() {
                lemma_str_lit(s, k + 2);
            }
        } else {
            lemma_str_lit(s, k + 1);
        }
    }
}

pub open spec fn prepend<T>(t: T, r: Result<Seq<T>, ParseErrorModel>) -> Result<Seq<T>, ParseErrorModel> {
    match r {
        Ok(ts) => Ok(seq![t] + ts),
        Err(e) => Err(e),
    }
}

pub open spec fn prepend_all<T>(ts: Seq<T>, r: Result<Seq<T>, ParseErrorModel>) -> Result<Seq<T>, ParseErrorModel> {
    match r {
        Ok(rest) => Ok(ts + rest),
        Err(e) => Err(e),
    }
}

/// The tokens of `s[i..]`.
pub open spec fn lex_from(s: Seq<char>, i: int) -> Result<Seq<Tok>, ParseErrorModel>
    decreases s.len() - i,
{
    if i < 0 || i >= s.len() {
        Ok(seq![])
    } else if is_ws(s[i]) {
        lex_from(s, i + 1)
    } else if s[i] == ';' {
        proof {
            lemma_comment_end(s, i + 1);
        }
        lex_from(s, comment_end(s, i + 1))
    } else if s[i] == '(' {
        prepend(Tok::LParen, lex_from(s, i + 1))
    } else if s[i] == ')' {
        prepend(Tok::RParen, lex_from(s, i + 1))
    } else if s[i] == '"' {
        proof {
            lemma_str_lit(s, i + 1);
        }
        match str_lit(s, i + 1) {
            Some((body, j)) => prepend(Tok::Str(body), lex_from(s, j)),
            None => Err(ParseErrorModel::UnexpectedEof),
        }
    } else {
        proof {
            lemma_atom_end(s, i + 1);
        }
        prepend(Tok::Atom(s.subrange(i, atom_end(s, i + 1))), lex_from(s, atom_end(s, i + 1)))
    }
}

pub open spec fn lex(s: Seq<char>) -> Result<Seq<Tok>, ParseErrorModel> {
    lex_from(s, 0)
}

fn is_delim_exec(c: char) -> (r: bool)
    ensures
        r == is_delim(c),
{
    is_whitespace(c) || c == '(' || c == ')' || c == '"' || c == ';'
}

/// Scans a string literal body starting at `k`.
fn scan_str(s: &Vec<char>, k: usize) -> (r: Option<(Vec<char>, usize)>)
    requires
        k <= s.len(),
    ensures
        r matches Some((b, j)) ==> str_lit(s@, k as int) == Some((b@, j as int)),
        r is None ==> str_lit(s@, k as int) is None,
{
    let mut acc: Vec<char> = Vec::new();
    let mut i = k;
    while i < s.len()
        invariant
            k <= i <= s.len(),
            str_lit(s@, k as int) == (match str_lit(s@, i as int) {
                Some((r, j)) => Some((acc@ + r, j)),
                None => None,
            }),
        decreases s.len() - i,
    {
        let c = s[i];
        if c == '"' {
            proof {
                assert(acc@ + seq![] =~= acc@);
            }
            return Some((acc, i + 1));
        }
        if c == '\\' {
            if i + 1 >= s.len() {
                return None;
            }
            let d = s[i + 1];
            let e = if d == 'n' {
                '\n'
            } else if d == 't' {
                '\t'
            } else {
                d
            };
            proof {
                let ghost a = acc@;
                assert(forall|r: Seq<char>| (a + (seq![e] + r)) =~= (a.push(e) + r));
            }
            acc.push(e);
            i = i + 2;
        } else {
            proof {
                let ghost a = acc@;
                assert(forall|r: Seq<char>| (a + (seq![c] + r)) =~= (a.push(c) + r));
            }
            acc.push(c);
            i = i + 1;
        }
    }
    None
}

/// The tokens of `source`.
pub fn tokenize(source: &str) -> (r: Result<Vec<Token>, ParseError>)
    ensures
        r matches Ok(ts) ==> lex(source@) == Ok::<Seq<Tok>, ParseErrorModel>(toks(ts@)),
        r matches Err(e) ==> lex(source@) == Err::<Seq<Tok>, ParseErrorModel>(e@),
{
    let s = chars_of(source);
    let mut out: Vec<Token> = Vec::new();
    let mut i: usize = 0;
    while i < s.len()
        invariant
            i <= s.len(),
            s@ == source@,
            lex(s@) == prepend_all(toks(out@), lex_from(s@, i as int)),
        decreases s.len() - i,
    {
        let ghost before = toks(out@);
        let c = s[i];
        if is_whitespace(c) {
            i = i + 1;
        } else if c == ';' {
            let mut j = i + 1;
            while j < s.len() && s[j] != '\n'
                invariant
                    i < j <= s.len(),
                    comment_end(s@, i + 1) == comment_end(s@, j as int),
                decreases s.len() - j,
            {
                j = j + 1;
            }
            i = j;
        } else if c == '(' || c == ')' {
            let t = if c == '(' {
                Token::LParen
            } else {
                Token::RParen
            };
            out.push(t);
            proof {
                assert(toks(out@) =~= before.push(t@));
                assert(forall|r: Seq<Tok>| (before + (seq![t@] + r)) =~= (before.push(t@) + r));
            }
            i = i + 1;
        } else if c == '"' {
            proof {
                lemma_str_lit(s@, i + 1);
            }
            match scan_str(&s, i + 1) {
                Some((body, j)) => {
                    let t = Token::Str(string_from_chars(&body));
                    out.push(t);
                    proof {
                        assert(toks(out@) =~= before.push(t@));
                        assert(forall|r: Seq<Tok>| (before + (seq![t@] + r)) =~= (before.push(t@) + r));
                    }
                    i = j;
                },
                None => {
                    return Err(ParseError::UnexpectedEof);
                },
            }
        } else {
            proof {
                lemma_atom_end(s@, i + 1);
            }
            let mut j = i + 1;
            while j < s.len() && !is_delim_exec(s[j])
                invariant
                    i < j <= s.len(),
                    atom_end(s@, i + 1) == atom_end(s@, j as int),
                decreases s.len() - j,
            {
                j = j + 1;
            }
            let t = Token::Atom(string_from_range(&s, i, j));
            out.push(t);
            proof {
                assert(toks(out@) =~= before.push(t@));
                assert(forall|r: Seq<Tok>| (before + (seq![t@] + r)) =~= (before.push(t@) + r));
            }
            i = j;
        }
    }
    proof {
        assert(toks(out@) + seq![] =~= toks(out@));
    }
    Ok(out)
}


// ---------------------------------------------------------------------------
// Atoms
// ---------------------------------------------------------------------------

pub open spec fn all_digits(d: Seq<char>) -> bool {
    d.len() > 0 && forall|k: int| 0 <= k < d.len() ==> crate::text::is_ascii_digit(#[trigger] d[k])
}

/// The value of a run of decimal digits.
pub open spec fn digits_value(d: Seq<char>) -> int
    decreases d.len(),
{
    if d.len() == 0 {
        0
    } else {
        digits_value(d.drop_last()) * 10 + (d.last() as int - '0' as int)
    }
}

/// The integer an atom spells, if it is an optional `-` and digits.
pub open spec fn int_atom(a: Seq<char>) -> Option<int> {
    if a.len() > 0 && a[0] == '-' && all_digits(a.skip(1)) {
        Some(-digits_value(a.skip(1)))
    } else if all_digits(a) {
        Some(digits_value(a))
    } else {
        None
    }
}

/// The expression an atom stands for.
pub open spec fn atom_value(a: Seq<char>) -> Result<ExprModel, ParseErrorModel> {
    if a == "true"@ {
        Ok(ExprModel::Lit(ValueModel::Bool(true)))
    } else if a == "false"@ {
        Ok(ExprModel::Lit(ValueModel::Bool(false)))
    } else if a == "nil"@ {
        Ok(ExprModel::Lit(ValueModel::Nil))
    } else {
        match status_from_name(a) {
            Some(st) => Ok(ExprModel::Lit(ValueModel::Status(st))),
            None => match writeback_from_name(a) {
                Some(w) => Ok(ExprModel::Lit(ValueModel::CheckboxWriteback(w))),
                None => match int_atom(a) {
                    Some(n) => if i64::MIN <= n <= i64::MAX {
                        Ok(ExprModel::Lit(ValueModel::Int(n as i64)))
                    } else {
                        Err(ParseErrorModel::UnexpectedToken(a, "64-bit integer"@))
                    },
                    None => Ok(ExprModel::Var(a)),
                },
            },
        }
    }
}

proof fn lemma_digits_value_step(d: Seq<char>, k: int)
    requires
        0 <= k < d.len(),
        forall|j: int| 0 <= j < d.len() ==> crate::text::is_ascii_digit(#[trigger] d[j]),
    ensures
        digits_value(d.take(k + 1)) == digits_value(d.take(k)) * 10 + (d[k] as int - '0' as int),
        digits_value(d.take(k)) >= 0,
    decreases k,
{
    assert(d.take(k + 1).drop_last() =~= d.take(k));
    if k > 0 {
        lemma_digits_value_step(d, k - 1);
    }
}

proof fn lemma_digits_value_mono(d: Seq<char>, i: int, j: int)
    requires
        0 <= i <= j <= d.len(),
        forall|k: int| 0 <= k < d.len() ==> crate::text::is_ascii_digit(#[trigger] d[k]),
    ensures
        digits_value(d.take(i)) <= digits_value(d.take(j)),
    decreases j - i,
{
    if i < j {
        lemma_digits_value_step(d, j - 1);
        lemma_digits_value_mono(d, i, j - 1);
    }
}

/// The value of the digits `d` if it is at most `10^19`.
pub(crate) fn digits_capped(d: &Vec<char>, from: usize) -> (r: Option<u128>)
    requires
        from <= d.len(),
        forall|j: int| from <= j < d.len() ==> crate::text::is_ascii_digit(#[trigger] d@[j]),
    ensures
        r matches Some(n) ==> n == digits_value(d@.skip(from as int)) && n <= 10_000_000_000_000_000_000u128,
        r is None ==> digits_value(d@.skip(from as int)) > 10_000_000_000_000_000_000u128,
{
    let ghost t = d@.skip(from as int);
    let mut acc: u128 = 0;
    let mut k: usize = from;
    assert(t.take(0) =~= Seq::<char>::empty());
    while k < d.len()
        invariant
            from <= k <= d.len(),
            t == d@.skip(from as int),
            forall|j: int| 0 <= j < t.len() ==> crate::text::is_ascii_digit(#[trigger] t[j]),
            acc == digits_value(t.take(k - from)),
            acc <= 10_000_000_000_000_000_000u128,
        decreases d.len() - k,
    {
        proof {
            lemma_digits_value_step(t, k - from);
        }
        let dg = (d[k] as u32 - '0' as u32) as u128;
        acc = acc * 10 + dg;
        k = k + 1;
        if acc > 10_000_000_000_000_000_000u128 {
            proof {
                lemma_digits_value_mono(t, k - from, t.len() as int);
                assert(t.take(t.len() as int) =~= t);
            }
            return None;
        }
    }
    assert(t.take(t.len() as int) =~= t);
    Some(acc)
}

pub(crate) fn all_digits_from(v: &Vec<char>, from: usize) -> (r: bool)
    requires
        from <= v.len(),
    ensures
        r == all_digits(v@.skip(from as int)),
{
    if from >= v.len() {
        return false;
    }
    let mut k = from;
    while k < v.len()
        invariant
            from <= k <= v.len(),
            forall|j: int| from <= j < k ==> crate::text::is_ascii_digit(#[trigger] v@[j]),
        decreases v.len() - k,
    {
        if !('0' <= v[k] && v[k] <= '9') {
            assert(!crate::text::is_ascii_digit(v@.skip(from as int)[k - from]));
            return false;
        }
        k += 1;
    }
    assert forall|j: int| 0 <= j < v@.skip(from as int).len() implies crate::text::is_ascii_digit(
        #[trigger] v@.skip(from as int)[j],
    ) by {
        assert(v@.skip(from as int)[j] == v@[j + from]);
    }
    true
}

fn atom_expr(a: &String) -> (r: Result<Expr, ParseError>)
    ensures
        r matches Ok(e) ==> atom_value(a@) == Ok::<ExprModel, ParseErrorModel>(e@),
        r matches Err(e) ==> atom_value(a@) == Err::<ExprModel, ParseErrorModel>(e@),
{
    let s = a.as_str();
    if crate::text::str_eq(s, "true") {
        return Ok(Expr::Lit(Value::Bool(true)));
    }
    if crate::text::str_eq(s, "false") {
        return Ok(Expr::Lit(Value::Bool(false)));
    }
    if crate::text::str_eq(s, "nil") {
        return Ok(Expr::Lit(Value::Nil));
    }
    if let Some(st) = Status::from_str(s) {
        return Ok(Expr::Lit(Value::Status(st)));
    }
    if let Some(w) = CheckboxWriteback::from_str(s) {
        return Ok(Expr::Lit(Value::CheckboxWriteback(w)));
    }
    let v = chars_of(s);
    let neg = v.len() > 0 && v[0] == '-' && all_digits_from(&v, 1);
    let pos = !neg && all_digits_from(&v, 0);
    assert(v@.skip(0) =~= v@);
    if !neg && !pos {
        return Ok(Expr::Var(a.clone()));
    }
    let from: usize = if neg {
        1
    } else {
        0
    };
    proof {
        assert forall|j: int| from <= j < v.len() implies crate::text::is_ascii_digit(#[trigger] v@[j]) by {
            assert(v@[j] == v@.skip(from as int)[j - from]);
        }
    }
    match digits_capped(&v, from) {
        None => Err(ParseError::UnexpectedToken { got: a.clone(), expected: "64-bit integer".to_owned() }),
        Some(n) => {
            if neg {
                if n <= 9_223_372_036_854_775_808u128 {
                    let m: i64 = if n == 9_223_372_036_854_775_808u128 {
                        i64::MIN
                    } else {
                        -(n as i64)
                    };
                    Ok(Expr::Lit(Value::Int(m)))
                } else {
                    Err(ParseError::UnexpectedToken { got: a.clone(), expected: "64-bit integer".to_owned() })
                }
            } else {
                if n <= 9_223_372_036_854_775_807u128 {
                    Ok(Expr::Lit(Value::Int(n as i64)))
                } else {
                    Err(ParseError::UnexpectedToken { got: a.clone(), expected: "64-bit integer".to_owned() })
                }
            }
        },
    }
}


// ---------------------------------------------------------------------------
// Expressions
// ---------------------------------------------------------------------------

/// How a token reads in an error message.
pub open spec fn tok_text(t: Tok) -> Seq<char> {
    match t {
        Tok::LParen => "("@,
        Tok::RParen => ")"@,
        Tok::Str(x) => seq!['"'] + x + seq!['"'],
        Tok::Atom(a) => a,
    }
}

/// The expression that starts at token `p`, and the index past it.
pub open spec fn expr_at(ts: Seq<Tok>, p: int) -> Result<(ExprModel, int), ParseErrorModel>
    decreases ts.len() - p, 0int,
{
    if p < 0 || p >= ts.len() {
        Err(ParseErrorModel::UnexpectedEof)
    } else {
        match ts[p] {
            Tok::RParen => Err(ParseErrorModel::UnexpectedToken(")"@, "expression"@)),
            Tok::Str(x) => Ok((ExprModel::Lit(ValueModel::Str(x)), p + 1)),
            Tok::Atom(a) => match atom_value(a) {
                Ok(e) => Ok((e, p + 1)),
                Err(e) => Err(e),
            },
            Tok::LParen => form_at(ts, p + 1),
        }
    }
}

/// The form whose head is token `q` (just after its `(`).
pub open spec fn form_at(ts: Seq<Tok>, q: int) -> Result<(ExprModel, int), ParseErrorModel>
    decreases ts.len() - q, 0int,
{
    if q < 0 || q >= ts.len() {
        Err(ParseErrorModel::UnexpectedEof)
    } else if ts[q] == Tok::Atom("if"@) {
        if_at(ts, q + 1)
    } else {
        match ts[q] {
            Tok::Atom(h) => if atom_value(h) == Ok::<ExprModel, ParseErrorModel>(ExprModel::Var(h)) {
                match args_at(ts, q + 1) {
                    Ok((args, q2)) => Ok((ExprModel::Call(h, args), q2)),
                    Err(e) => Err(e),
                }
            } else {
                Err(ParseErrorModel::InvalidExprHead(h))
            },
            _ => Err(ParseErrorModel::InvalidExprHead(tok_text(ts[q]))),
        }
    }
}

/// The three operands and the closing `)` of an `if` form.
pub open spec fn if_at(ts: Seq<Tok>, q: int) -> Result<(ExprModel, int), ParseErrorModel>
    decreases ts.len() - q, 1int,
{
    match expr_at(ts, q) {
        Err(e) => Err(e),
        Ok((c, q1)) => if q1 <= q || q1 > ts.len() {
            Err(ParseErrorModel::UnexpectedEof)
        } else {
            match expr_at(ts, q1) {
                Err(e) => Err(e),
                Ok((t, q2)) => if q2 <= q1 || q2 > ts.len() {
                    Err(ParseErrorModel::UnexpectedEof)
                } else {
                    match expr_at(ts, q2) {
                        Err(e) => Err(e),
                        Ok((e, q3)) => if q3 < 0 || q3 >= ts.len() {
                            Err(ParseErrorModel::UnexpectedEof)
                        } else if ts[q3] != Tok::RParen {
                            Err(ParseErrorModel::UnexpectedToken(tok_text(ts[q3]), ")"@))
                        } else {
                            Ok((ExprModel::If(Box::new(c), Box::new(t), Box::new(e)), q3 + 1))
                        },
                    }
                },
            }
        },
    }
}

/// The arguments of a call up to and including its `)`.
pub open spec fn args_at(ts: Seq<Tok>, q: int) -> Result<(Seq<ExprModel>, int), ParseErrorModel>
    decreases ts.len() - q, 1int,
{
    if q < 0 || q >= ts.len() {
        Err(ParseErrorModel::UnexpectedEof)
    } else if ts[q] == Tok::RParen {
        Ok((seq![], q + 1))
    } else {
        match expr_at(ts, q) {
            Err(e) => Err(e),
            Ok((a, q2)) => if q2 <= q || q2 > ts.len() {
                Err(ParseErrorModel::UnexpectedEof)
            } else {
                match args_at(ts, q2) {
                    Err(e) => Err(e),
                    Ok((rest, q3)) => Ok((seq![a] + rest, q3)),
                }
            },
        }
    }
}

pub open spec fn expr_res(r: Result<(Expr, usize), ParseError>) -> Result<(ExprModel, int), ParseErrorModel> {
    match r {
        Ok((e, q)) => Ok((e@, q as int)),
        Err(e) => Err(e@),
    }
}

pub open spec fn args_res(r: Result<(Vec<Expr>, usize), ParseError>) -> Result<(Seq<ExprModel>, int), ParseErrorModel> {
    match r {
        Ok((a, q)) => Ok((crate::reconcile::ast::expr_models(a@), q as int)),
        Err(e) => Err(e@),
    }
}

fn tok_text_exec(t: &Token) -> (r: String)
    ensures
        r@ == tok_text(t@),
{
    match t {
        Token::LParen => "(".to_owned(),
        Token::RParen => ")".to_owned(),
        Token::Str(x) => {
            let xs = chars_of(x.as_str());
            let mut v: Vec<char> = Vec::new();
            v.push('"');
            let mut k: usize = 0;
            while k < xs.len()
                invariant
                    k <= xs.len(),
                    v@ == seq!['"'] + xs@.take(k as int),
                decreases xs.len() - k,
            {
                v.push(xs[k]);
                assert(xs@.take(k + 1) =~= xs@.take(k as int).push(xs@[k as int]));
                k += 1;
            }
            v.push('"');
            assert(xs@.take(xs.len() as int) =~= xs@);
            string_from_chars(&v)
        },
        Token::Atom(a) => a.clone(),
    }
}

fn is_atom_named(t: &Token, name: &str) -> (r: bool)
    ensures
        r == (t@ == Tok::Atom(name@)),
{
    match t {
        Token::Atom(a) => crate::text::str_eq(a.as_str(), name),
        _ => false,
    }
}

fn parse_expr(ts: &Vec<Token>, p: usize) -> (r: Result<(Expr, usize), ParseError>)
    ensures
        expr_res(r) == expr_at(toks(ts@), p as int),
        r matches Ok((_, q)) ==> p < q <= ts.len(),
    decreases ts.len() - p, 0int,
{
    if p >= ts.len() {
        return Err(ParseError::UnexpectedEof);
    }
    assert(toks(ts@)[p as int] == ts@[p as int]@);
    match &ts[p] {
        Token::RParen => Err(ParseError::UnexpectedToken { got: ")".to_owned(), expected: "expression".to_owned() }),
        Token::Str(x) => Ok((Expr::Lit(Value::String(x.clone())), p + 1)),
        Token::Atom(a) => match atom_expr(a) {
            Ok(e) => Ok((e, p + 1)),
            Err(e) => Err(e),
        },
        Token::LParen => parse_form(ts, p + 1),
    }
}

fn parse_form(ts: &Vec<Token>, q: usize) -> (r: Result<(Expr, usize), ParseError>)
    requires
        q >= 1,
    ensures
        expr_res(r) == form_at(toks(ts@), q as int),
        r matches Ok((_, q2)) ==> q < q2 <= ts.len(),
    decreases ts.len() - q, 0int,
{
    if q >= ts.len() {
        return Err(ParseError::UnexpectedEof);
    }
    assert(toks(ts@)[q as int] == ts@[q as int]@);
    if is_atom_named(&ts[q], "if") {
        return parse_if(ts, q + 1);
    }
    match &ts[q] {
        Token::Atom(h) => {
            let head = atom_expr(h);
            let is_var = match &head {
                Ok(Expr::Var(_)) => true,
                _ => false,
            };
            proof {
                if is_var {
                    assert(atom_value(h@) == Ok::<ExprModel, ParseErrorModel>(ExprModel::Var(h@)));
                } else {
                    assert(atom_value(h@) != Ok::<ExprModel, ParseErrorModel>(ExprModel::Var(h@)));
                }
            }
            if is_var {
                match parse_args(ts, q + 1) {
                    Ok((args, q2)) => Ok((Expr::Call { name: h.clone(), args }, q2)),
                    Err(e) => Err(e),
                }
            } else {
                Err(ParseError::InvalidExprHead(h.clone()))
            }
        },
        _ => Err(ParseError::InvalidExprHead(tok_text_exec(&ts[q]))),
    }
}

fn parse_if(ts: &Vec<Token>, q: usize) -> (r: Result<(Expr, usize), ParseError>)
    ensures
        expr_res(r) == if_at(toks(ts@), q as int),
        r matches Ok((_, q2)) ==> q < q2 <= ts.len(),
    decreases ts.len() - q, 1int,
{
    let (c, q1) = match parse_expr(ts, q) {
        Ok(x) => x,
        Err(e) => return Err(e),
    };
    let (t, q2) = match parse_expr(ts, q1) {
        Ok(x) => x,
        Err(e) => return Err(e),
    };
    let (e, q3) = match parse_expr(ts, q2) {
        Ok(x) => x,
        Err(e) => return Err(e),
    };
    if q3 >= ts.len() {
        return Err(ParseError::UnexpectedEof);
    }
    assert(toks(ts@)[q3 as int] == ts@[q3 as int]@);
    match &ts[q3] {
        Token::RParen => Ok((Expr::If { cond: Box::new(c), then: Box::new(t), else_: Box::new(e) }, q3 + 1)),
        other => Err(ParseError::UnexpectedToken { got: tok_text_exec(other), expected: ")".to_owned() }),
    }
}

fn parse_args(ts: &Vec<Token>, q: usize) -> (r: Result<(Vec<Expr>, usize), ParseError>)
    ensures
        args_res(r) == args_at(toks(ts@), q as int),
        r matches Ok((_, q2)) ==> q < q2 <= ts.len(),
    decreases ts.len() - q, 1int,
{
    if q >= ts.len() {
        return Err(ParseError::UnexpectedEof);
    }
    assert(toks(ts@)[q as int] == ts@[q as int]@);
    if let Token::RParen = &ts[q] {
        proof {
            crate::reconcile::ast::lemma_expr_models(Seq::<Expr>::empty());
            assert(crate::reconcile::ast::expr_models(Seq::<Expr>::empty()) =~= Seq::<ExprModel>::empty());
        }
        return Ok((Vec::new(), q + 1));
    }
    let (a, q2) = match parse_expr(ts, q) {
        Ok(x) => x,
        Err(e) => return Err(e),
    };
    let (rest, q3) = match parse_args(ts, q2) {
        Ok(x) => x,
        Err(e) => return Err(e),
    };
    let mut out: Vec<Expr> = Vec::new();
    out.push(a);
    let mut rest = rest;
    let ghost rv = rest@;
    let ghost am = out@[0]@;
    out.append(&mut rest);
    proof {
        crate::reconcile::ast::lemma_expr_models(out@);
        crate::reconcile::ast::lemma_expr_models(rv);
        assert(crate::reconcile::ast::expr_models(out@) =~= seq![am] + crate::reconcile::ast::expr_models(rv));
    }
    Ok((out, q3))
}


// ---------------------------------------------------------------------------
// Module
// ---------------------------------------------------------------------------

/// The parameter names of a rule head up to and including its `)`.
pub open spec fn params_at(ts: Seq<Tok>, q: int) -> Result<(Seq<Seq<char>>, int), ParseErrorModel>
    decreases ts.len() - q,
{
    if q < 0 || q >= ts.len() {
        Err(ParseErrorModel::UnexpectedEof)
    } else {
        match ts[q] {
            Tok::RParen => Ok((seq![], q + 1)),
            Tok::Atom(a) => match params_at(ts, q + 1) {
                Ok((rest, q2)) => Ok((seq![a] + rest, q2)),
                Err(e) => Err(e),
            },
            _ => Err(ParseErrorModel::UnexpectedToken(tok_text(ts[q]), "parameter name"@)),
        }
    }
}

/// `(name param...) body)` of a `define` form starting at `q`.
pub open spec fn define_at(ts: Seq<Tok>, q: int) -> Result<(RuleModel, int), ParseErrorModel> {
    if q < 0 || q >= ts.len() {
        Err(ParseErrorModel::UnexpectedEof)
    } else if ts[q] != Tok::LParen {
        Err(ParseErrorModel::UnexpectedToken(tok_text(ts[q]), "("@))
    } else if q + 1 >= ts.len() {
        Err(ParseErrorModel::UnexpectedEof)
    } else {
        match ts[q + 1] {
            Tok::Atom(name) => match params_at(ts, q + 2) {
                Err(e) => Err(e),
                Ok((ps, q2)) => match expr_at(ts, q2) {
                    Err(e) => Err(e),
                    Ok((body, q3)) => if q3 < 0 || q3 >= ts.len() {
                        Err(ParseErrorModel::UnexpectedEof)
                    } else if ts[q3] != Tok::RParen {
                        Err(ParseErrorModel::UnexpectedToken(tok_text(ts[q3]), ")"@))
                    } else {
                        Ok((RuleModel { name, params: ps, body }, q3 + 1))
                    },
                },
            },
            _ => Err(ParseErrorModel::UnexpectedToken(tok_text(ts[q + 1]), "rule name"@)),
        }
    }
}

/// The policy after the entries `(key value)` from `q` up to the block's `)`.
pub open spec fn policy_at(ts: Seq<Tok>, q: int, pol: Policy) -> Result<(Policy, int), ParseErrorModel>
    decreases ts.len() - q,
{
    if q < 0 || q >= ts.len() {
        Err(ParseErrorModel::UnexpectedEof)
    } else if ts[q] == Tok::RParen {
        Ok((pol, q + 1))
    } else if ts[q] != Tok::LParen {
        Err(ParseErrorModel::UnexpectedToken(tok_text(ts[q]), "("@))
    } else if q + 3 >= ts.len() {
        Err(ParseErrorModel::UnexpectedEof)
    } else {
        match (ts[q + 1], ts[q + 2]) {
            (Tok::Atom(k), Tok::Atom(v)) => if ts[q + 3] != Tok::RParen {
                Err(ParseErrorModel::UnexpectedToken(tok_text(ts[q + 3]), ")"@))
            } else if k == "cycle"@ {
                if v == "error"@ {
                    policy_at(ts, q + 4, Policy { cycle: CyclePolicy::Error, ..pol })
                } else if v == "fallback"@ {
                    policy_at(ts, q + 4, Policy { cycle: CyclePolicy::Fallback, ..pol })
                } else {
                    Err(ParseErrorModel::InvalidPolicyValue(k, v))
                }
            } else if k == "unknown-status"@ {
                match status_from_name(v) {
                    Some(st) => policy_at(ts, q + 4, Policy { unknown_status: st, ..pol }),
                    None => Err(ParseErrorModel::InvalidPolicyValue(k, v)),
                }
            } else {
                Err(ParseErrorModel::InvalidPolicyKey(k))
            },
            (Tok::Atom(_), _) => Err(ParseErrorModel::UnexpectedToken(tok_text(ts[q + 2]), "policy value"@)),
            _ => Err(ParseErrorModel::UnexpectedToken(tok_text(ts[q + 1]), "policy key"@)),
        }
    }
}

pub open spec fn has_rule(rules: Seq<RuleModel>, name: Seq<char>) -> bool {
    exists|i: int| 0 <= i < rules.len() && #[trigger] rules[i].name == name
}

/// The module items from `q` up to and including the module's `)`.
pub open spec fn items_at(ts: Seq<Tok>, q: int, acc: ModuleModel) -> Result<(ModuleModel, int), ParseErrorModel>
    decreases ts.len() - q,
{
    if q < 0 || q >= ts.len() {
        Err(ParseErrorModel::UnexpectedEof)
    } else if ts[q] == Tok::RParen {
        Ok((acc, q + 1))
    } else if ts[q] != Tok::LParen {
        Err(ParseErrorModel::UnexpectedToken(tok_text(ts[q]), "("@))
    } else if q + 1 >= ts.len() {
        Err(ParseErrorModel::UnexpectedEof)
    } else if ts[q + 1] == Tok::Atom("define"@) {
        match define_at(ts, q + 2) {
            Err(e) => Err(e),
            Ok((r, q2)) => if has_rule(acc.rules, r.name) {
                Err(ParseErrorModel::DuplicateRule(r.name))
            } else if q2 <= q || q2 > ts.len() {
                Err(ParseErrorModel::UnexpectedEof)
            } else {
                items_at(ts, q2, ModuleModel { rules: acc.rules.push(r), policy: acc.policy })
            },
        }
    } else if ts[q + 1] == Tok::Atom("policy"@) {
        match policy_at(ts, q + 2, acc.policy) {
            Err(e) => Err(e),
            Ok((pol, q2)) => if q2 <= q || q2 > ts.len() {
                Err(ParseErrorModel::UnexpectedEof)
            } else {
                items_at(ts, q2, ModuleModel { rules: acc.rules, policy: pol })
            },
        }
    } else {
        Err(ParseErrorModel::UnexpectedToken(tok_text(ts[q + 1]), "define or policy"@))
    }
}

/// The module a token sequence spells: `(module item...)` and nothing after.
pub open spec fn module_of(ts: Seq<Tok>) -> Result<ModuleModel, ParseErrorModel> {
    if ts.len() == 0 {
        Err(ParseErrorModel::UnexpectedEof)
    } else if ts[0] != Tok::LParen {
        Err(ParseErrorModel::UnexpectedToken(tok_text(ts[0]), "("@))
    } else if ts.len() < 2 {
        Err(ParseErrorModel::UnexpectedEof)
    } else if ts[1] != Tok::Atom("module"@) {
        Err(ParseErrorModel::UnexpectedToken(tok_text(ts[1]), "module"@))
    } else {
        match items_at(ts, 2, ModuleModel { rules: seq![], policy: default_policy() }) {
            Err(e) => Err(e),
            Ok((m, q)) => if 0 <= q < ts.len() {
                Err(ParseErrorModel::UnexpectedToken(tok_text(ts[q]), "end of input"@))
            } else {
                Ok(m)
            },
        }
    }
}

/// The module a rule file's source text spells.
pub open spec fn module_of_source(src: Seq<char>) -> Result<ModuleModel, ParseErrorModel> {
    match lex(src) {
        Ok(ts) => module_of(ts),
        Err(e) => Err(e),
    }
}

fn parse_params(ts: &Vec<Token>, q: usize) -> (r: Result<(Vec<String>, usize), ParseError>)
    ensures
        r matches Ok((ps, q2)) ==> params_at(toks(ts@), q as int) == Ok::<(Seq<Seq<char>>, int), ParseErrorModel>(
            (crate::reconcile::ast::names(ps@), q2 as int),
        ) && q < q2 <= ts.len(),
        r matches Err(e) ==> params_at(toks(ts@), q as int) == Err::<(Seq<Seq<char>>, int), ParseErrorModel>(e@),
{
    if q >= ts.len() {
        return Err(ParseError::UnexpectedEof);
    }
    let mut out: Vec<String> = Vec::new();
    let mut i = q;
    while i < ts.len()
        invariant
            q <= i <= ts.len(),
            params_at(toks(ts@), q as int) == (match params_at(toks(ts@), i as int) {
                Ok((rest, q2)) => Ok((crate::reconcile::ast::names(out@) + rest, q2)),
                Err(e) => Err(e),
            }),
        decreases ts.len() - i,
    {
        assert(toks(ts@)[i as int] == ts@[i as int]@);
        match &ts[i] {
            Token::RParen => {
                assert(crate::reconcile::ast::names(out@) + seq![] =~= crate::reconcile::ast::names(out@));
                return Ok((out, i + 1));
            },
            Token::Atom(a) => {
                let ghost before = crate::reconcile::ast::names(out@);
                out.push(a.clone());
                proof {
                    assert(crate::reconcile::ast::names(out@) =~= before.push(a@));
                    assert(forall|r: Seq<Seq<char>>| (before + (seq![a@] + r)) =~= (before.push(a@) + r));
                }
                i = i + 1;
            },
            other => {
                return Err(ParseError::UnexpectedToken { got: tok_text_exec(other), expected: "parameter name".to_owned() });
            },
        }
    }
    Err(ParseError::UnexpectedEof)
}

fn parse_define(ts: &Vec<Token>, q: usize) -> (r: Result<(Rule, usize), ParseError>)
    ensures
        r matches Ok((rule, q2)) ==> define_at(toks(ts@), q as int) == Ok::<(RuleModel, int), ParseErrorModel>(
            (rule@, q2 as int),
        ) && q < q2 <= ts.len(),
        r matches Err(e) ==> define_at(toks(ts@), q as int) == Err::<(RuleModel, int), ParseErrorModel>(e@),
{
    if q >= ts.len() {
        return Err(ParseError::UnexpectedEof);
    }
    assert(toks(ts@)[q as int] == ts@[q as int]@);
    match &ts[q] {
        Token::LParen => {},
        other => {
            return Err(ParseError::UnexpectedToken { got: tok_text_exec(other), expected: "(".to_owned() });
        },
    }
    if q + 1 >= ts.len() {
        return Err(ParseError::UnexpectedEof);
    }
    assert(toks(ts@)[q + 1] == ts@[q + 1]@);
    let name = match &ts[q + 1] {
        Token::Atom(a) => a.clone(),
        other => {
            return Err(ParseError::UnexpectedToken { got: tok_text_exec(other), expected: "rule name".to_owned() });
        },
    };
    let (params, q2) = match parse_params(ts, q + 2) {
        Ok(x) => x,
        Err(e) => return Err(e),
    };
    let (body, q3) = match parse_expr(ts, q2) {
        Ok(x) => x,
        Err(e) => return Err(e),
    };
    if q3 >= ts.len() {
        return Err(ParseError::UnexpectedEof);
    }
    assert(toks(ts@)[q3 as int] == ts@[q3 as int]@);
    match &ts[q3] {
        Token::RParen => Ok((Rule { name, params, body }, q3 + 1)),
        other => Err(ParseError::UnexpectedToken { got: tok_text_exec(other), expected: ")".to_owned() }),
    }
}

fn parse_policy(ts: &Vec<Token>, q: usize, pol: Policy) -> (r: Result<(Policy, usize), ParseError>)
    ensures
        r matches Ok((p, q2)) ==> policy_at(toks(ts@), q as int, pol) == Ok::<(Policy, int), ParseErrorModel>(
            (p, q2 as int),
        ) && q < q2 <= ts.len(),
        r matches Err(e) ==> policy_at(toks(ts@), q as int, pol) == Err::<(Policy, int), ParseErrorModel>(e@),
{
    if q >= ts.len() {
        return Err(ParseError::UnexpectedEof);
    }
    let mut cur = pol;
    let mut i = q;
    while i < ts.len()
        invariant
            q <= i <= ts.len(),
            policy_at(toks(ts@), q as int, pol) == policy_at(toks(ts@), i as int, cur),
        decreases ts.len() - i,
    {
        assert(toks(ts@)[i as int] == ts@[i as int]@);
        match &ts[i] {
            Token::RParen => {
                return Ok((cur, i + 1));
            },
            Token::LParen => {},
            other => {
                return Err(ParseError::UnexpectedToken { got: tok_text_exec(other), expected: "(".to_owned() });
            },
        }
        if ts.len() - i <= 3 {
            return Err(ParseError::UnexpectedEof);
        }
        assert(toks(ts@)[i + 1] == ts@[i + 1]@);
        assert(toks(ts@)[i + 2] == ts@[i + 2]@);
        assert(toks(ts@)[i + 3] == ts@[i + 3]@);
        let key = match &ts[i + 1] {
            Token::Atom(k) => k,
            other => {
                return Err(ParseError::UnexpectedToken { got: tok_text_exec(other), expected: "policy key".to_owned() });
            },
        };
        let value = match &ts[i + 2] {
            Token::Atom(v) => v,
            other => {
                return Err(ParseError::UnexpectedToken { got: tok_text_exec(other), expected: "policy value".to_owned() });
            },
        };
        match &ts[i + 3] {
            Token::RParen => {},
            other => {
                return Err(ParseError::UnexpectedToken { got: tok_text_exec(other), expected: ")".to_owned() });
            },
        }
        if crate::text::str_eq(key.as_str(), "cycle") {
            if crate::text::str_eq(value.as_str(), "error") {
                cur = Policy { cycle: CyclePolicy::Error, ..cur };
            } else if crate::text::str_eq(value.as_str(), "fallback") {
                cur = Policy { cycle: CyclePolicy::Fallback, ..cur };
            } else {
                return Err(ParseError::InvalidPolicyValue { key: key.clone(), value: value.clone() });
            }
        } else if crate::text::str_eq(key.as_str(), "unknown-status") {
            match Status::from_str(value.as_str()) {
                Some(st) => {
                    cur = Policy { unknown_status: st, ..cur };
                },
                None => {
                    return Err(ParseError::InvalidPolicyValue { key: key.clone(), value: value.clone() });
                },
            }
        } else {
            return Err(ParseError::InvalidPolicyKey(key.clone()));
        }
        i = i + 4;
    }
    Err(ParseError::UnexpectedEof)
}

pub open spec fn module_res(r: Result<Module, ParseError>) -> Result<ModuleModel, ParseErrorModel> {
    match r {
        Ok(m) => Ok(m@),
        Err(e) => Err(e@),
    }
}

/// Parses the tokens of a rule file into a module.
fn parse_tokens(ts: &Vec<Token>) -> (r: Result<Module, ParseError>)
    ensures
        module_res(r) == module_of(toks(ts@)),
{
    if ts.len() == 0 {
        return Err(ParseError::UnexpectedEof);
    }
    assert(toks(ts@)[0] == ts@[0]@);
    match &ts[0] {
        Token::LParen => {},
        other => {
            return Err(ParseError::UnexpectedToken { got: tok_text_exec(other), expected: "(".to_owned() });
        },
    }
    if ts.len() < 2 {
        return Err(ParseError::UnexpectedEof);
    }
    assert(toks(ts@)[1] == ts@[1]@);
    if !is_atom_named(&ts[1], "module") {
        return Err(ParseError::UnexpectedToken { got: tok_text_exec(&ts[1]), expected: "module".to_owned() });
    }
    let mut m = Module { rules: Vec::new(), policy: Policy { cycle: CyclePolicy::Error, unknown_status: Status::Todo } };
    assert(m@.rules =~= Seq::<RuleModel>::empty());
    assert(m@ == ModuleModel { rules: seq![], policy: default_policy() });
    let mut i: usize = 2;
    while i < ts.len()
        invariant
            2 <= i <= ts.len(),
            toks(ts@).len() == ts.len(),
            toks(ts@)[0] == Tok::LParen,
            toks(ts@)[1] == Tok::Atom("module"@),
            items_at(toks(ts@), 2, ModuleModel { rules: seq![], policy: default_policy() })
                == items_at(toks(ts@), i as int, m@),
        decreases ts.len() - i,
    {
        assert(toks(ts@)[i as int] == ts@[i as int]@);
        match &ts[i] {
            Token::RParen => {
                assert(toks(ts@).len() == ts.len());
                assert(items_at(toks(ts@), i as int, m@) == Ok::<(ModuleModel, int), ParseErrorModel>((m@, i + 1)));
                if i + 1 < ts.len() {
                    assert(toks(ts@)[i + 1] == ts@[i + 1]@);
                    return Err(ParseError::UnexpectedToken { got: tok_text_exec(&ts[i + 1]), expected: "end of input".to_owned() });
                }
                return Ok(m);
            },
            Token::LParen => {},
            other => {
                return Err(ParseError::UnexpectedToken { got: tok_text_exec(other), expected: "(".to_owned() });
            },
        }
        if i + 1 >= ts.len() {
            return Err(ParseError::UnexpectedEof);
        }
        assert(toks(ts@)[i + 1] == ts@[i + 1]@);
        if is_atom_named(&ts[i + 1], "define") {
            let (rule, q2) = match parse_define(ts, i + 2) {
                Ok(x) => x,
                Err(e) => return Err(e),
            };
            match crate::reconcile::ast::rule_index(&m, rule.name.as_str()) {
                Some(k) => {
                    proof {
                        crate::reconcile::ast::lemma_find_rule_from(m@.rules, rule.name@, 0);
                        assert(m@.rules[k as int].name == rule@.name);
                    }
                    return Err(ParseError::DuplicateRule(rule.name));
                },
                None => {
                    proof {
                        crate::reconcile::ast::lemma_find_rule_from(m@.rules, rule.name@, 0);
                    }
                },
            }
            let ghost old_rules = m@.rules;
            let ghost rm = rule@;
            m.rules.push(rule);
            assert(m@.rules =~= old_rules.push(rm));
            i = q2;
        } else if is_atom_named(&ts[i + 1], "policy") {
            let (pol, q2) = match parse_policy(ts, i + 2, m.policy) {
                Ok(x) => x,
                Err(e) => return Err(e),
            };
            m.policy = pol;
            i = q2;
        } else {
            return Err(ParseError::UnexpectedToken { got: tok_text_exec(&ts[i + 1]), expected: "define or policy".to_owned() });
        }
    }
    Err(ParseError::UnexpectedEof)
}

/// Parses a rule file's source text into a module.
///
/// The file holds one `(module ...)` form of `(define (name param...) body)`
/// and `(policy (key value)...)` items; a rule name defined twice is a
/// `DuplicateRule` error.
pub fn parse_module(source: &str) -> (r: Result<Module, ParseError>)
    ensures
        module_res(r) == module_of_source(source@),
{
    match tokenize(source) {
        Ok(ts) => parse_tokens(&ts),
        Err(e) => Err(e),
    }
}

} // verus!
