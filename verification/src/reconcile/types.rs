//! Core types for the Reconcile DSL v1.
//!
//! The DSL implements the observe → effective → materialize model: the
//! engine builds a workspace snapshot, type-checks the rule module,
//! evaluates `effective_checked` / `effective_meta`, and writes back the
//! fields declared by `materialized_fields`.
use vstd::prelude::*;
use crate::text::str_eq;

verus! {

/// Stable identifier for a checklist item: note ID plus 0-based line index.
#[derive(Debug, Clone, PartialEq, Eq, Hash)]
pub struct CheckboxId {
    /// Note that contains this checklist item.
    pub note_id: String,
    /// 0-based line index within the note content.
    pub line_idx: usize,
}

/// Note / checklist status values used throughout the DSL.
///
/// Maps to the `checklist-status` metadata field and to the `Status` DSL
/// type.
#[derive(Debug, Clone, Copy, PartialEq, Eq, Hash, Structural)]
pub enum Status {
    /// No checklist — status not applicable (`none`).
    NotApplicable,
    /// At least one item incomplete, none in progress.
    Todo,
    /// Mixed: some done, some not.
    Wip,
    /// All leaf items complete.
    Done,
}

pub open spec fn status_name(s: Status) -> Seq<char> {
    match s {
        Status::NotApplicable => "none"@,
        Status::Todo => "todo"@,
        Status::Wip => "wip"@,
        Status::Done => "done"@,
    }
}

pub open spec fn status_from_name(v: Seq<char>) -> Option<Status> {
    if v == "none"@ {
        Some(Status::NotApplicable)
    } else if v == "todo"@ {
        Some(Status::Todo)
    } else if v == "wip"@ {
        Some(Status::Wip)
    } else if v == "done"@ {
        Some(Status::Done)
    } else {
        None
    }
}

/// `none` entries are ignored; no other entry gives `none`, all `done`
/// gives `done`, all `todo` gives `todo`, anything else `wip`.
pub open spec fn aggregate_spec(s: Seq<Status>) -> Status {
    if forall|i: int| 0 <= i < s.len() ==> s[i] == Status::NotApplicable {
        Status::NotApplicable
    } else if forall|i: int|
        0 <= i < s.len() ==> s[i] == Status::NotApplicable || s[i] == Status::Done {
        Status::Done
    } else if forall|i: int|
        0 <= i < s.len() ==> s[i] == Status::NotApplicable || s[i] == Status::Todo {
        Status::Todo
    } else {
        Status::Wip
    }
}

impl Status {
    pub fn is_done(&self) -> (r: bool)
        ensures
            r == (*self == Status::Done),
    {
        match self {
            Status::Done => true,
            _ => false,
        }
    }

    pub fn to_str(&self) -> (r: &'static str)
        ensures
            r@ == status_name(*self),
    {
        match self {
            Status::NotApplicable => "none",
            Status::Todo => "todo",
            Status::Wip => "wip",
            Status::Done => "done",
        }
    }

    pub fn from_str(value: &str) -> (r: Option<Self>)
        ensures
            r == status_from_name(value@),
    {
        if str_eq(value, "none") {
            Some(Status::NotApplicable)
        } else if str_eq(value, "todo") {
            Some(Status::Todo)
        } else if str_eq(value, "wip") {
            Some(Status::Wip)
        } else if str_eq(value, "done") {
            Some(Status::Done)
        } else {
            None
        }
    }

    pub fn aggregate(statuses: &[Self]) -> (r: Self)
        ensures
            r == aggregate_spec(statuses@),
    {
        let mut any_applicable = false;
        let mut all_done = true;
        let mut all_todo = true;
        let mut i: usize = 0;
        while i < statuses.len()
            invariant
                i <= statuses@.len(),
                any_applicable == exists|k: int|
                    0 <= k < i && #[trigger] statuses@[k] != Status::NotApplicable,
                all_done == forall|k: int|
                    0 <= k < i ==> #[trigger] statuses@[k] == Status::NotApplicable || statuses@[k]
                        == Status::Done,
                all_todo == forall|k: int|
                    0 <= k < i ==> #[trigger] statuses@[k] == Status::NotApplicable || statuses@[k]
                        == Status::Todo,
            decreases statuses@.len() - i,
        {
            let s = statuses[i];
            match s {
                Status::NotApplicable => {},
                Status::Done => {
                    any_applicable = true;
                    all_todo = false;
                },
                Status::Todo => {
                    any_applicable = true;
                    all_done = false;
                },
                Status::Wip => {
                    any_applicable = true;
                    all_done = false;
                    all_todo = false;
                },
            }
            i += 1;
        }
        if !any_applicable {
            Status::NotApplicable
        } else if all_done {
            Status::Done
        } else if all_todo {
            Status::Todo
        } else {
            Status::Wip
        }
    }
}

/// Parsing a status's name gives the status back.
pub proof fn lemma_status_roundtrip(s: Status)
    ensures
        status_from_name(status_name(s)) == Some(s),
{
    reveal_strlit("none");
    reveal_strlit("todo");
    reveal_strlit("wip");
    reveal_strlit("done");
    assert("none"@[0] != "todo"@[0]);
    assert("none"@.len() != "wip"@.len());
    assert("none"@[0] != "done"@[0]);
    assert("todo"@.len() != "wip"@.len());
    assert("todo"@[0] != "done"@[0]);
    assert("wip"@.len() != "done"@.len());
}

/// Checkbox writeback directives used during the materialize phase.
///
/// These control how a checkbox line should be written back to disk after
/// `effective_checked` has produced a semantic `Status`.
#[derive(Debug, Clone, Copy, PartialEq, Eq, Hash, Structural)]
pub enum CheckboxWriteback {
    /// Leave the source checkbox text unchanged.
    Keep,
    /// Materialize as `- [ ]`.
    Unchecked,
    /// Materialize as `- [x]`.
    Checked,
}

pub open spec fn writeback_name(w: CheckboxWriteback) -> Seq<char> {
    match w {
        CheckboxWriteback::Keep => "keep"@,
        CheckboxWriteback::Unchecked => "unchecked"@,
        CheckboxWriteback::Checked => "checked"@,
    }
}

pub open spec fn writeback_from_name(v: Seq<char>) -> Option<CheckboxWriteback> {
    if v == "keep"@ {
        Some(CheckboxWriteback::Keep)
    } else if v == "unchecked"@ {
        Some(CheckboxWriteback::Unchecked)
    } else if v == "checked"@ {
        Some(CheckboxWriteback::Checked)
    } else {
        None
    }
}

impl CheckboxWriteback {
    pub fn to_str(&self) -> (r: &'static str)
        ensures
            r@ == writeback_name(*self),
    {
        match self {
            CheckboxWriteback::Keep => "keep",
            CheckboxWriteback::Unchecked => "unchecked",
            CheckboxWriteback::Checked => "checked",
        }
    }

    pub fn from_str(value: &str) -> (r: Option<Self>)
        ensures
            r == writeback_from_name(value@),
    {
        if str_eq(value, "keep") {
            Some(CheckboxWriteback::Keep)
        } else if str_eq(value, "unchecked") {
            Some(CheckboxWriteback::Unchecked)
        } else if str_eq(value, "checked") {
            Some(CheckboxWriteback::Checked)
        } else {
            None
        }
    }
}

/// Parsing a writeback's name gives it back.
pub proof fn lemma_writeback_roundtrip(w: CheckboxWriteback)
    ensures
        writeback_from_name(writeback_name(w)) == Some(w),
{
    reveal_strlit("keep");
    reveal_strlit("unchecked");
    reveal_strlit("checked");
    assert("keep"@.len() != "unchecked"@.len());
    assert("keep"@.len() != "checked"@.len());
    assert("unchecked"@.len() != "checked"@.len());
}

/// Runtime value in the Reconcile DSL evaluator.
#[derive(Debug, PartialEq, Eq, Hash)]
pub enum Value {
    /// Logical `true` / `false`.
    Bool(bool),
    /// 64-bit signed integer.
    Int(i64),
    /// Absence value; returned by `parent` for root checklist items.
    Nil,
    /// One of `none` / `todo` / `wip` / `done`.
    Status(Status),
    /// One of `keep` / `unchecked` / `checked`.
    CheckboxWriteback(CheckboxWriteback),
    /// Homogeneous list.
    List(Vec<Value>),
    /// Runtime handle to a note.
    NoteRef(String),
    /// Runtime handle to a checklist item.
    CheckboxRef(CheckboxId),
    /// String value (non-Status metadata fields, string literals).
    String(String),
}

/// A value as plain mathematical data.
pub enum ValueModel {
    Bool(bool),
    Int(i64),
    Nil,
    Status(Status),
    CheckboxWriteback(CheckboxWriteback),
    List(Seq<ValueModel>),
    NoteRef(Seq<char>),
    CheckboxRef(Seq<char>, usize),
    Str(Seq<char>),
}

pub open spec fn value_model(v: Value) -> ValueModel
    decreases v,
{
    match v {
        Value::Bool(b) => ValueModel::Bool(b),
        Value::Int(n) => ValueModel::Int(n),
        Value::Nil => ValueModel::Nil,
        Value::Status(s) => ValueModel::Status(s),
        Value::CheckboxWriteback(w) => ValueModel::CheckboxWriteback(w),
        Value::List(items) => ValueModel::List(value_models(items@)),
        Value::NoteRef(id) => ValueModel::NoteRef(id@),
        Value::CheckboxRef(cid) => ValueModel::CheckboxRef(cid.note_id@, cid.line_idx),
        Value::String(s) => ValueModel::Str(s@),
    }
}

pub open spec fn value_models(s: Seq<Value>) -> Seq<ValueModel>
    decreases s,
{
    if s.len() == 0 {
        seq![]
    } else {
        value_models(s.subrange(0, s.len() - 1)).push(value_model(s[s.len() - 1]))
    }
}

pub proof fn lemma_value_models(s: Seq<Value>)
    ensures
        value_models(s).len() == s.len(),
        forall|i: int| 0 <= i < s.len() ==> #[trigger] value_models(s)[i] == value_model(s[i]),
    decreases s.len(),
{
    if s.len() > 0 {
        lemma_value_models(s.subrange(0, s.len() - 1));
    }
}

impl View for Value {
    type V = ValueModel;

    open spec fn view(&self) -> ValueModel {
        value_model(*self)
    }
}

/// Structural equality of two values.
pub fn value_eq(a: &Value, b: &Value) -> (r: bool)
    ensures
        r == (a@ == b@),
    decreases a,
{
    match (a, b) {
        (Value::Bool(x), Value::Bool(y)) => *x == *y,
        (Value::Int(x), Value::Int(y)) => *x == *y,
        (Value::Nil, Value::Nil) => true,
        (Value::Status(x), Value::Status(y)) => *x == *y,
        (Value::CheckboxWriteback(x), Value::CheckboxWriteback(y)) => *x == *y,
        (Value::NoteRef(x), Value::NoteRef(y)) => str_eq(x.as_str(), y.as_str()),
        (Value::CheckboxRef(x), Value::CheckboxRef(y)) => x.line_idx == y.line_idx && str_eq(
            x.note_id.as_str(),
            y.note_id.as_str(),
        ),
        (Value::String(x), Value::String(y)) => str_eq(x.as_str(), y.as_str()),
        (Value::List(x), Value::List(y)) => {
            proof {
                lemma_value_models(x@);
                lemma_value_models(y@);
            }
            if x.len() != y.len() {
                return false;
            }
            let mut i: usize = 0;
            while i < x.len()
                invariant
                    x.len() == y.len(),
                    i <= x.len(),
                    *a == Value::List(*x),
                    *b == Value::List(*y),
                    value_models(x@).len() == x.len(),
                    value_models(y@).len() == y.len(),
                    forall|k: int| 0 <= k < x.len() ==> #[trigger] value_models(x@)[k] == value_model(x@[k]),
                    forall|k: int| 0 <= k < y.len() ==> #[trigger] value_models(y@)[k] == value_model(y@[k]),
                    forall|k: int| 0 <= k < i ==> value_model(x@[k]) == value_model(y@[k]),
                decreases x.len() - i,
            {
                proof {
                    assert(decreases_to!(*a => (*a)->List_0));
                    assert(decreases_to!((*a)->List_0 => (*a)->List_0@));
                    assert(decreases_to!(x@ => x@[i as int]));
                    assert(decreases_to!(*a => x@[i as int]));
                }
                if !value_eq(&x[i], &y[i]) {
                    assert(value_models(x@)[i as int] != value_models(y@)[i as int]);
                    return false;
                }
                i += 1;
            }
            assert(value_models(x@) =~= value_models(y@));
            true
        },
        _ => false,
    }
}

/// A static type of the DSL.
#[derive(Debug, PartialEq, Eq, Hash)]
pub enum Type {
    Any,
    Bool,
    Int,
    Nil,
    Status,
    CheckboxWriteback,
    String,
    NoteRef,
    CheckboxRef,
    List(Box<Type>),
}

/// Equality of two types.
pub fn type_eq(a: &Type, b: &Type) -> (r: bool)
    ensures
        r == (*a == *b),
    decreases a,
{
    match (a, b) {
        (Type::Any, Type::Any) => true,
        (Type::Bool, Type::Bool) => true,
        (Type::Int, Type::Int) => true,
        (Type::Nil, Type::Nil) => true,
        (Type::Status, Type::Status) => true,
        (Type::CheckboxWriteback, Type::CheckboxWriteback) => true,
        (Type::String, Type::String) => true,
        (Type::NoteRef, Type::NoteRef) => true,
        (Type::CheckboxRef, Type::CheckboxRef) => true,
        (Type::List(x), Type::List(y)) => type_eq(x, y),
        _ => false,
    }
}

/// A copy of a type.
pub fn type_clone(a: &Type) -> (r: Type)
    ensures
        r == *a,
    decreases a,
{
    match a {
        Type::Any => Type::Any,
        Type::Bool => Type::Bool,
        Type::Int => Type::Int,
        Type::Nil => Type::Nil,
        Type::Status => Type::Status,
        Type::CheckboxWriteback => Type::CheckboxWriteback,
        Type::String => Type::String,
        Type::NoteRef => Type::NoteRef,
        Type::CheckboxRef => Type::CheckboxRef,
        Type::List(x) => Type::List(Box::new(type_clone(x))),
    }
}

impl Clone for Type {
    fn clone(&self) -> (r: Self)
        ensures
            r == *self,
    {
        type_clone(self)
    }
}

/// A copy of a value.
pub fn value_clone(v: &Value) -> (r: Value)
    ensures
        r@ == v@,
    decreases v,
{
    match v {
        Value::Bool(b) => Value::Bool(*b),
        Value::Int(n) => Value::Int(*n),
        Value::Nil => Value::Nil,
        Value::Status(s) => Value::Status(*s),
        Value::CheckboxWriteback(w) => Value::CheckboxWriteback(*w),
        Value::NoteRef(id) => Value::NoteRef(id.clone()),
        Value::CheckboxRef(cid) => Value::CheckboxRef(
            CheckboxId { note_id: cid.note_id.clone(), line_idx: cid.line_idx },
        ),
        Value::String(s) => Value::String(s.clone()),
        Value::List(items) => {
            proof {
                lemma_value_models(items@);
            }
            let mut out: Vec<Value> = Vec::new();
            let mut i: usize = 0;
            while i < items.len()
                invariant
                    i <= items.len(),
                    *v == Value::List(*items),
                    value_models(items@).len() == items.len(),
                    forall|k: int| 0 <= k < items.len() ==> #[trigger] value_models(items@)[k] == value_model(items@[k]),
                    out.len() == i,
                    forall|k: int| 0 <= k < i ==> value_model(#[trigger] out@[k]) == value_model(items@[k]),
                decreases items.len() - i,
            {
                proof {
                    assert(decreases_to!(*v => (*v)->List_0));
                    assert(decreases_to!((*v)->List_0 => (*v)->List_0@));
                    assert(decreases_to!(items@ => items@[i as int]));
                    assert(decreases_to!(*v => items@[i as int]));
                }
                out.push(value_clone(&items[i]));
                i += 1;
            }
            proof {
                lemma_value_models(out@);
                assert(value_models(out@) =~= value_models(items@));
            }
            Value::List(out)
        },
    }
}

impl Clone for Value {
    fn clone(&self) -> (r: Self)
        ensures
            r@ == self@,
    {
        value_clone(self)
    }
}

// ---------------------------------------------------------------------------
// Errors
// ---------------------------------------------------------------------------

#[derive(Debug, Clone, PartialEq)]
pub enum ParseError {
    UnexpectedEof,
    UnexpectedToken { got: String, expected: String },
    InvalidExprHead(String),
    DuplicateRule(String),
    InvalidPolicyKey(String),
    InvalidPolicyValue { key: String, value: String },
}

#[derive(Debug, Clone, PartialEq)]
#[allow(inconsistent_fields)]
pub enum TypeError {
    UnknownVariable(String),
    UnknownFunction(String),
    TypeMismatch { expected: Type, got: Type },
    IfBranchMismatch { then_type: Type, else_type: Type },
    WrongArgCount { name: String, expected: usize, got: usize },
    UnsupportedHigherOrderArg { name: String },
}

#[derive(Debug, Clone, PartialEq)]
pub enum EvalError {
    UnknownVariable(String),
    UnknownFunction(String),
    TypeMismatch { context: String },
}

#[derive(Debug, Clone, PartialEq)]
pub enum DiagnosticKind {
    Cycle,
    EvalFallback,
    UnknownMetadataField,
}

#[derive(Debug, Clone, PartialEq, Eq)]
pub enum DiagnosticSeverity {
    Error,
}

#[derive(Debug, Clone, PartialEq, Eq)]
pub struct DiagnosticLocation {
    pub file_path: String,
    pub line: usize,
    pub byte_start: u32,
    pub byte_end: u32,
}

#[derive(Debug, Clone)]
pub struct ReconcileDiagnostic {
    pub note_id: String,
    pub message: String,
    pub kind: DiagnosticKind,
    pub severity: DiagnosticSeverity,
    pub location: Option<DiagnosticLocation>,
    pub related_locations: Vec<DiagnosticLocation>,
}

// ---------------------------------------------------------------------------
// Texts
// ---------------------------------------------------------------------------

/// A checklist item as `note_id:line_idx`.
pub open spec fn checkbox_id_text(c: CheckboxId) -> Seq<char> {
    c.note_id@ + ":"@ + crate::cycle::dec(c.line_idx as nat)
}

impl CheckboxId {
    /// The item as `note_id:line_idx`.
    pub fn text(&self) -> (r: String)
        ensures
            r@ == checkbox_id_text(*self),
    {
        let mut out: Vec<char> = Vec::new();
        crate::text::push_str(&mut out, self.note_id.as_str());
        crate::text::push_str(&mut out, ":");
        let d = crate::cycle::dec_exec(self.line_idx as u64);
        crate::text::push_chars(&mut out, &d);
        proof {
            reveal_strlit(":");
        }
        crate::text::string_from_chars(&out)
    }
}

/// The name of a type, as the DSL writes it: `List(Int)` and the like.
pub open spec fn type_text(t: Type) -> Seq<char>
    decreases t,
{
    match t {
        Type::Any => "Any"@,
        Type::Bool => "Bool"@,
        Type::Int => "Int"@,
        Type::Nil => "Nil"@,
        Type::Status => "Status"@,
        Type::CheckboxWriteback => "CheckboxWriteback"@,
        Type::String => "String"@,
        Type::NoteRef => "NoteRef"@,
        Type::CheckboxRef => "CheckboxRef"@,
        Type::List(inner) => "List("@ + type_text(*inner) + ")"@,
    }
}

fn push_type_text(out: &mut Vec<char>, t: &Type)
    ensures
        final(out)@ == old(out)@ + type_text(*t),
    decreases t,
{
    match t {
        Type::Any => crate::text::push_str(out, "Any"),
        Type::Bool => crate::text::push_str(out, "Bool"),
        Type::Int => crate::text::push_str(out, "Int"),
        Type::Nil => crate::text::push_str(out, "Nil"),
        Type::Status => crate::text::push_str(out, "Status"),
        Type::CheckboxWriteback => crate::text::push_str(out, "CheckboxWriteback"),
        Type::String => crate::text::push_str(out, "String"),
        Type::NoteRef => crate::text::push_str(out, "NoteRef"),
        Type::CheckboxRef => crate::text::push_str(out, "CheckboxRef"),
        Type::List(inner) => {
            crate::text::push_str(out, "List(");
            push_type_text(out, inner);
            crate::text::push_str(out, ")");
            proof {
                reveal_strlit("List(");
                reveal_strlit(")");
            }
            assert(final(out)@ =~= old(out)@ + type_text(*t));
        },
    }
}

impl Type {
    /// The name of the type (`type_text`).
    pub fn text(&self) -> (r: String)
        ensures
            r@ == type_text(*self),
    {
        let mut out: Vec<char> = Vec::new();
        push_type_text(&mut out, self);
        assert(out@ =~= type_text(*self));
        crate::text::string_from_chars(&out)
    }
}

pub open spec fn parse_error_message(e: ParseError) -> Seq<char> {
    match e {
        ParseError::UnexpectedEof => "unexpected end of input"@,
        ParseError::UnexpectedToken { got, expected } => "unexpected token '"@ + got@ + "', expected "@ + expected@,
        ParseError::InvalidExprHead(s) => "invalid expression head '"@ + s@ + "'"@,
        ParseError::DuplicateRule(s) => "duplicate rule name '"@ + s@ + "'"@,
        ParseError::InvalidPolicyKey(k) => "unknown policy key '"@ + k@ + "'"@,
        ParseError::InvalidPolicyValue { key, value } => "invalid value '"@ + value@ + "' for policy key '"@ + key@
            + "'"@,
    }
}

fn concat3(a: &str, b: &str, c: &str) -> (r: String)
    ensures
        r@ == a@ + b@ + c@,
{
    let mut out: Vec<char> = Vec::new();
    crate::text::push_str(&mut out, a);
    crate::text::push_str(&mut out, b);
    crate::text::push_str(&mut out, c);
    assert(out@ =~= a@ + b@ + c@);
    crate::text::string_from_chars(&out)
}

impl ParseError {
    /// The message shown for the error.
    pub fn message(&self) -> (r: String)
        ensures
            r@ == parse_error_message(*self),
    {
        proof {
            reveal_strlit("");
        }
        match self {
            ParseError::UnexpectedEof => "unexpected end of input".to_owned(),
            ParseError::UnexpectedToken { got, expected } => {
                let a = concat3("unexpected token '", got.as_str(), "', expected ");
                concat3(a.as_str(), expected.as_str(), "")
            },
            ParseError::InvalidExprHead(s) => concat3("invalid expression head '", s.as_str(), "'"),
            ParseError::DuplicateRule(s) => concat3("duplicate rule name '", s.as_str(), "'"),
            ParseError::InvalidPolicyKey(k) => concat3("unknown policy key '", k.as_str(), "'"),
            ParseError::InvalidPolicyValue { key, value } => {
                let a = concat3("invalid value '", value.as_str(), "' for policy key '");
                concat3(a.as_str(), key.as_str(), "'")
            },
        }
    }
}

pub open spec fn type_error_message(e: TypeError) -> Seq<char> {
    match e {
        TypeError::UnknownVariable(v) => "unknown variable '"@ + v@ + "'"@,
        TypeError::UnknownFunction(n) => "unknown function '"@ + n@ + "'"@,
        TypeError::TypeMismatch { expected, got } => "type mismatch: expected "@ + type_text(expected) + ", got "@
            + type_text(got),
        TypeError::IfBranchMismatch { then_type, else_type } => "if branch type mismatch: then="@ + type_text(then_type)
            + ", else="@ + type_text(else_type),
        TypeError::WrongArgCount { name, expected, got } => "'"@ + name@ + "' expected "@ + crate::cycle::dec(
            expected as nat,
        ) + " args, got "@ + crate::cycle::dec(got as nat),
        TypeError::UnsupportedHigherOrderArg { name } => "unsupported higher-order argument in '"@ + name@ + "'"@,
    }
}

impl TypeError {
    /// The message shown for the error.
    pub fn message(&self) -> (r: String)
        ensures
            r@ == type_error_message(*self),
    {
        proof {
            reveal_strlit("");
        }
        match self {
            TypeError::UnknownVariable(v) => concat3("unknown variable '", v.as_str(), "'"),
            TypeError::UnknownFunction(n) => concat3("unknown function '", n.as_str(), "'"),
            TypeError::TypeMismatch { expected, got } => {
                let e = expected.text();
                let g = got.text();
                let a = concat3("type mismatch: expected ", e.as_str(), ", got ");
                concat3(a.as_str(), g.as_str(), "")
            },
            TypeError::IfBranchMismatch { then_type, else_type } => {
                let t = then_type.text();
                let e = else_type.text();
                let a = concat3("if branch type mismatch: then=", t.as_str(), ", else=");
                concat3(a.as_str(), e.as_str(), "")
            },
            TypeError::WrongArgCount { name, expected, got } => {
                let ev = crate::cycle::dec_exec(*expected as u64);
                let gv = crate::cycle::dec_exec(*got as u64);
                let es = crate::text::string_from_chars(&ev);
                let gs = crate::text::string_from_chars(&gv);
                let a = concat3("'", name.as_str(), "' expected ");
                let b = concat3(a.as_str(), es.as_str(), " args, got ");
                concat3(b.as_str(), gs.as_str(), "")
            },
            TypeError::UnsupportedHigherOrderArg { name } => concat3(
                "unsupported higher-order argument in '",
                name.as_str(),
                "'",
            ),
        }
    }
}

pub open spec fn eval_error_message(e: EvalError) -> Seq<char> {
    match e {
        EvalError::UnknownVariable(v) => "unknown variable '"@ + v@ + "'"@,
        EvalError::UnknownFunction(n) => "unknown function '"@ + n@ + "'"@,
        EvalError::TypeMismatch { context } => "type mismatch in "@ + context@,
    }
}

impl EvalError {
    /// The message shown for the error.
    pub fn message(&self) -> (r: String)
        ensures
            r@ == eval_error_message(*self),
    {
        proof {
            reveal_strlit("");
        }
        match self {
            EvalError::UnknownVariable(v) => concat3("unknown variable '", v.as_str(), "'"),
            EvalError::UnknownFunction(n) => concat3("unknown function '", n.as_str(), "'"),
            EvalError::TypeMismatch { context } => concat3("type mismatch in ", context.as_str(), ""),
        }
    }
}

} // verus!
