//! Evaluator for the Reconcile DSL.
//!
//! Every function call (rule or builtin) goes through one entry point that
//! memoizes results by name and argument values. A call that re-enters a
//! call still in progress with the same arguments does not recurse: it
//! takes a fallback value of the call's type (and, under the `error` cycle
//! policy, records a `Cycle` diagnostic). Rule calls carry a depth budget,
//! `MAX_CALL_DEPTH`, as large as a `usize` holds: it only bounds the proof
//! of termination, since each call in progress takes stack space.
use vstd::prelude::*;
use crate::reconcile::ast::{find_rule, CyclePolicy, Expr, ExprModel, Module, ModuleModel, RuleModel};
use crate::reconcile::observe::{
    backlink_ids, children_lines, has_field, local_lines, observed_checked, observed_meta, parent_line,
    target_ids, SnapshotModel, WorkspaceSnapshot,
};
use crate::reconcile::typecheck::{list_any, list_of, ret_or_any, type_of_value, TypeInfo};
use crate::reconcile::types::{
    aggregate_spec, CheckboxId, DiagnosticKind, DiagnosticSeverity, EvalError, ReconcileDiagnostic, Status,
    Type, Value, ValueModel,
};
use crate::StringHashMap;

verus! {

/// The depth budget of rule calls: the largest `usize`, so that every
/// finite recursion completes as it would without a budget.
pub const MAX_CALL_DEPTH: usize = usize::MAX;

/// An evaluation error as plain values.
pub enum EvalErrorModel {
    UnknownVariable(Seq<char>),
    UnknownFunction(Seq<char>),
    TypeMismatch(Seq<char>),
}

impl View for EvalError {
    type V = EvalErrorModel;

    open spec fn view(&self) -> EvalErrorModel {
        match self {
            EvalError::UnknownVariable(n) => EvalErrorModel::UnknownVariable(n@),
            EvalError::UnknownFunction(n) => EvalErrorModel::UnknownFunction(n@),
            EvalError::TypeMismatch { context } => EvalErrorModel::TypeMismatch(context@),
        }
    }
}

/// A diagnostic as plain values.
pub struct DiagModel {
    pub note_id: Seq<char>,
    pub message: Seq<char>,
    pub kind: DiagnosticKind,
}

pub open spec fn diag_model(d: ReconcileDiagnostic) -> DiagModel {
    DiagModel { note_id: d.note_id@, message: d.message@, kind: d.kind }
}

/// A call: the function's name and the argument values.
pub type KeyModel = (Seq<char>, Seq<ValueModel>);

/// The evaluator's state: memoized results, calls in progress, diagnostics.
pub struct EvState {
    pub cache: Seq<(KeyModel, ValueModel)>,
    pub stack: Seq<KeyModel>,
    pub diags: Seq<DiagModel>,
}

/// What evaluation reads: the module, the snapshot, the rules' return types.
pub struct Ctx {
    pub m: ModuleModel,
    pub snap: SnapshotModel,
    pub rets: Map<Seq<char>, Type>,
}

pub type ERes = Result<ValueModel, EvalErrorModel>;

pub type Env = Seq<(Seq<char>, ValueModel)>;

pub open spec fn tm(context: Seq<char>) -> EvalErrorModel {
    EvalErrorModel::TypeMismatch(context)
}

// ---------------------------------------------------------------------------
// Sizes (the termination measure)
// ---------------------------------------------------------------------------

pub open spec fn esize(e: ExprModel) -> nat
    decreases e, 0int,
{
    match e {
        ExprModel::Lit(_) => 1,
        ExprModel::Var(_) => 1,
        ExprModel::If(c, t, f) => 1 + esize(*c) + esize(*t) + esize(*f),
        ExprModel::Call(_, args) => 1 + asize(args, 0),
    }
}

pub open spec fn asize(args: Seq<ExprModel>, k: int) -> nat
    decreases args, args.len() - k,
{
    if k < 0 || k >= args.len() {
        0
    } else {
        1 + esize(args[k]) + asize(args, k + 1)
    }
}

pub proof fn lemma_asize(args: Seq<ExprModel>, k: int, j: int)
    requires
        0 <= k <= j < args.len(),
    ensures
        esize(args[j]) < asize(args, k),
    decreases j - k,
{
    if k < j {
        lemma_asize(args, k + 1, j);
    }
}

// ---------------------------------------------------------------------------
// Values, environments, the cache
// ---------------------------------------------------------------------------

/// The first binding of `name`.
pub open spec fn env_lookup(env: Env, name: Seq<char>, k: int) -> Option<ValueModel>
    decreases env.len() - k,
{
    if k < 0 || k >= env.len() {
        None
    } else if env[k].0 == name {
        Some(env[k].1)
    } else {
        env_lookup(env, name, k + 1)
    }
}

/// Parameters paired with argument values, as far as both go.
pub open spec fn bind_env(params: Seq<Seq<char>>, args: Seq<ValueModel>) -> Env {
    let n = if params.len() < args.len() { params.len() } else { args.len() };
    Seq::new(n, |i: int| (params[i], args[i]))
}

/// The memoized result of a call.
pub open spec fn cache_lookup(cache: Seq<(KeyModel, ValueModel)>, key: KeyModel, k: int) -> Option<ValueModel>
    decreases cache.len() - k,
{
    if k < 0 || k >= cache.len() {
        None
    } else if cache[k].0 == key {
        Some(cache[k].1)
    } else {
        cache_lookup(cache, key, k + 1)
    }
}

/// The value used for a call of type `t` that cannot be evaluated.
pub open spec fn unknown_value(t: Type, unknown_status: Status) -> ValueModel {
    match t {
        Type::Bool => ValueModel::Bool(false),
        Type::Int => ValueModel::Int(0),
        Type::Nil => ValueModel::Nil,
        Type::Status => ValueModel::Status(unknown_status),
        Type::List(_) => ValueModel::List(seq![]),
        Type::NoteRef => ValueModel::NoteRef(seq![]),
        Type::CheckboxRef => ValueModel::CheckboxRef(seq![], 0),
        Type::CheckboxWriteback => ValueModel::CheckboxWriteback(crate::reconcile::types::CheckboxWriteback::Keep),
        _ => ValueModel::Str(seq![]),
    }
}

/// The value of a field's default, if there is one.
pub open spec fn default_of(snap: SnapshotModel, field: Seq<char>) -> Option<ValueModel> {
    crate::reconcile::observe::lookup_from(snap.defaults, field, 0)
}

/// The type a call of `name` on `args` yields.
pub open spec fn call_type(c: Ctx, name: Seq<char>, args: Seq<ValueModel>) -> Type {
    if name == "empty?"@ || name == "all_done"@ || name == "all_done?"@ || name == "eq?"@ || name == "not"@
        || name == "and"@ || name == "or"@ || name == "done?"@ || name == "todo?"@ || name == "wip?"@
        || name == "none?"@ || name == "nil?"@ || name == "contains?"@ || name == "<"@ || name == ">"@
        || name == "<="@ || name == ">="@ {
        Type::Bool
    } else if name == "+"@ || name == "-"@ || name == "length"@ {
        Type::Int
    } else if name == "observe_checked"@ || name == "aggregate_status"@ {
        Type::Status
    } else if name == "observe_meta"@ {
        if args.len() > 1 {
            match args[1] {
                ValueModel::Str(field) => match default_of(c.snap, field) {
                    Some(v) => type_of_value(v),
                    None => Type::String,
                },
                _ => Type::Any,
            }
        } else {
            Type::Any
        }
    } else if name == "targets"@ || name == "backlinks"@ {
        list_of(Type::NoteRef)
    } else if name == "children"@ || name == "local_checkboxes"@ {
        list_of(Type::CheckboxRef)
    } else if name == "map"@ || name == "filter"@ || name == "list"@ || name == "union"@ || name == "dedup"@ {
        list_any()
    } else if name == "parent"@ {
        Type::Any
    } else if name == "owner_note"@ {
        Type::NoteRef
    } else {
        ret_or_any(c.rets, name)
    }
}

/// The note a call is about: its first note or checkbox argument.
pub open spec fn call_note(args: Seq<ValueModel>, k: int) -> Seq<char>
    decreases args.len() - k,
{
    if k < 0 || k >= args.len() {
        seq![]
    } else {
        match args[k] {
            ValueModel::NoteRef(id) => id,
            ValueModel::CheckboxRef(id, _) => id,
            _ => call_note(args, k + 1),
        }
    }
}

/// A call that re-enters itself (or nests too deep) yields the unknown
/// value of its type; under the `error` policy a `Cycle` diagnostic is
/// recorded.
pub open spec fn ev_fallback(c: Ctx, st: EvState, name: Seq<char>, args: Seq<ValueModel>) -> (EvState, ERes) {
    let st2 = if c.m.policy.cycle == CyclePolicy::Error {
        EvState {
            diags: st.diags.push(
                DiagModel {
                    note_id: call_note(args, 0),
                    message: "cycle detected while evaluating "@ + name,
                    kind: DiagnosticKind::Cycle,
                },
            ),
            ..st
        }
    } else {
        st
    };
    (st2, Ok(unknown_value(call_type(c, name, args), c.m.policy.unknown_status)))
}

// ---------------------------------------------------------------------------
// Builtins
// ---------------------------------------------------------------------------

/// The statuses of a list of status values.
pub open spec fn statuses_of(items: Seq<ValueModel>) -> Option<Seq<Status>>
    decreases items.len(),
{
    if items.len() == 0 {
        Some(seq![])
    } else {
        match (statuses_of(items.drop_last()), items.last()) {
            (Some(ss), ValueModel::Status(s)) => Some(ss.push(s)),
            _ => None,
        }
    }
}

/// `acc` extended by the items of `ys[k..]` it does not yet hold.
pub open spec fn add_new(acc: Seq<ValueModel>, ys: Seq<ValueModel>, k: int) -> Seq<ValueModel>
    decreases ys.len() - k,
{
    if k < 0 || k >= ys.len() {
        acc
    } else if acc.contains(ys[k]) {
        add_new(acc, ys, k + 1)
    } else {
        add_new(acc.push(ys[k]), ys, k + 1)
    }
}

pub open spec fn note_refs(ids: Seq<Seq<char>>) -> Seq<ValueModel> {
    ids.map_values(|id: Seq<char>| ValueModel::NoteRef(id))
}

pub open spec fn box_refs(id: Seq<char>, lines: Seq<usize>) -> Seq<ValueModel> {
    lines.map_values(|l: usize| ValueModel::CheckboxRef(id, l))
}

pub open spec fn status_test(name: Seq<char>, s: Status) -> bool {
    if name == "done?"@ {
        s == Status::Done
    } else if name == "todo?"@ {
        s == Status::Todo
    } else if name == "wip?"@ {
        s == Status::Wip
    } else {
        s == Status::NotApplicable
    }
}

pub open spec fn int_compare(name: Seq<char>, a: i64, b: i64) -> bool {
    if name == "<"@ {
        a < b
    } else if name == ">"@ {
        a > b
    } else if name == "<="@ {
        a <= b
    } else {
        a >= b
    }
}

/// A builtin other than `observe_meta` applied to argument values.
pub open spec fn builtin_value(c: Ctx, name: Seq<char>, args: Seq<ValueModel>) -> ERes {
    let one = args.len() == 1;
    let two = args.len() == 2;
    if name == "empty?"@ {
        if one && args[0] is List { Ok(ValueModel::Bool(args[0]->List_0.len() == 0)) } else { Err(tm(name)) }
    } else if name == "all_done"@ || name == "all_done?"@ {
        if one && args[0] is List {
            Ok(ValueModel::Bool(forall|k: int| 0 <= k < args[0]->List_0.len() ==> #[trigger] args[0]->List_0[k]
                == ValueModel::Status(Status::Done)))
        } else {
            Err(tm("all_done"@))
        }
    } else if name == "aggregate_status"@ {
        if one && args[0] is List {
            match statuses_of(args[0]->List_0) {
                Some(ss) => Ok(ValueModel::Status(aggregate_spec(ss))),
                None => Err(tm(name)),
            }
        } else {
            Err(tm(name))
        }
    } else if name == "eq?"@ {
        if two { Ok(ValueModel::Bool(args[0] == args[1])) } else { Err(tm(name)) }
    } else if name == "not"@ {
        if one && args[0] is Bool { Ok(ValueModel::Bool(!args[0]->Bool_0)) } else { Err(tm(name)) }
    } else if name == "done?"@ || name == "todo?"@ || name == "wip?"@ || name == "none?"@ {
        if one && args[0] is Status {
            Ok(ValueModel::Bool(status_test(name, args[0]->Status_0)))
        } else {
            Err(tm("status predicate"@))
        }
    } else if name == "observe_checked"@ {
        match (one, args[0]) {
            (true, ValueModel::CheckboxRef(id, line)) => Ok(
                ValueModel::Status(
                    match observed_checked(c.snap, id, line) {
                        Some(s) => s,
                        None => c.m.policy.unknown_status,
                    },
                ),
            ),
            _ => Err(tm(name)),
        }
    } else if name == "targets"@ || name == "children"@ || name == "parent"@ || name == "owner_note"@ {
        match (one, args[0]) {
            (true, ValueModel::CheckboxRef(id, line)) => Ok(
                if name == "targets"@ {
                    ValueModel::List(note_refs(target_ids(c.snap, id, line)))
                } else if name == "children"@ {
                    ValueModel::List(box_refs(id, children_lines(c.snap, id, line)))
                } else if name == "parent"@ {
                    match parent_line(c.snap, id, line) {
                        Some(p) => ValueModel::CheckboxRef(id, p),
                        None => ValueModel::Nil,
                    }
                } else {
                    ValueModel::NoteRef(id)
                },
            ),
            _ => Err(tm(name)),
        }
    } else if name == "local_checkboxes"@ || name == "backlinks"@ {
        match (one, args[0]) {
            (true, ValueModel::NoteRef(id)) => Ok(
                if name == "backlinks"@ {
                    ValueModel::List(note_refs(backlink_ids(c.snap, id)))
                } else {
                    ValueModel::List(box_refs(id, local_lines(c.snap, id)))
                },
            ),
            _ => Err(tm(name)),
        }
    } else if name == "+"@ || name == "-"@ {
        match (two, args[0], args[1]) {
            (true, ValueModel::Int(a), ValueModel::Int(b)) => Ok(
                ValueModel::Int(
                    if name == "+"@ {
                        vstd::wrapping::i64_specs::wrapping_add(a, b)
                    } else {
                        vstd::wrapping::i64_specs::wrapping_sub(a, b)
                    },
                ),
            ),
            _ => Err(tm(name)),
        }
    } else if name == "<"@ || name == ">"@ || name == "<="@ || name == ">="@ {
        match (two, args[0], args[1]) {
            (true, ValueModel::Int(a), ValueModel::Int(b)) => Ok(ValueModel::Bool(int_compare(name, a, b))),
            _ => Err(tm(name)),
        }
    } else if name == "nil?"@ {
        if one { Ok(ValueModel::Bool(args[0] == ValueModel::Nil)) } else { Err(tm(name)) }
    } else if name == "length"@ {
        if one && args[0] is List { Ok(ValueModel::Int(args[0]->List_0.len() as i64)) } else { Err(tm(name)) }
    } else if name == "union"@ {
        if two && args[0] is List && args[1] is List {
            Ok(ValueModel::List(add_new(seq![], args[0]->List_0 + args[1]->List_0, 0)))
        } else {
            Err(tm(name))
        }
    } else if name == "contains?"@ {
        if two && args[0] is List { Ok(ValueModel::Bool(args[0]->List_0.contains(args[1]))) } else { Err(tm(name)) }
    } else if name == "dedup"@ {
        if one && args[0] is List { Ok(ValueModel::List(add_new(seq![], args[0]->List_0, 0))) } else { Err(tm(name)) }
    } else {
        Err(EvalErrorModel::UnknownFunction(name))
    }
}

/// A builtin applied to argument values; `observe_meta` of a field the note
/// neither has nor has a default for records an `UnknownMetadataField`
/// diagnostic.
pub open spec fn ev_builtin(c: Ctx, st: EvState, name: Seq<char>, args: Seq<ValueModel>) -> (EvState, ERes) {
    if name == "observe_meta"@ {
        match (args.len() == 2, args[0], args[1]) {
            (true, ValueModel::NoteRef(id), ValueModel::Str(field)) => {
                let st2 = if !has_field(c.snap, id, field) {
                    EvState {
                        diags: st.diags.push(
                            DiagModel {
                                note_id: id,
                                message: "unknown metadata field '"@ + field + "'"@,
                                kind: DiagnosticKind::UnknownMetadataField,
                            },
                        ),
                        ..st
                    }
                } else {
                    st
                };
                (st2, Ok(observed_meta(c.snap, id, field)))
            },
            _ => (st, Err(tm(name))),
        }
    } else {
        (st, builtin_value(c, name, args))
    }
}


// ---------------------------------------------------------------------------
// Evaluation
// ---------------------------------------------------------------------------

pub open spec fn msg_first(form: Seq<char>) -> Seq<char> {
    if form == "map"@ {
        "map: first arg must be a function symbol"@
    } else if form == "filter"@ {
        "filter: first arg must be a function symbol"@
    } else {
        "reduce: first arg must be a function symbol"@
    }
}

pub open spec fn msg_missing_list(form: Seq<char>) -> Seq<char> {
    if form == "map"@ {
        "map: missing list arg"@
    } else if form == "filter"@ {
        "filter: missing list arg"@
    } else {
        "reduce: missing list arg"@
    }
}

pub open spec fn msg_not_list(form: Seq<char>) -> Seq<char> {
    if form == "map"@ {
        "map: second arg must be a list"@
    } else if form == "filter"@ {
        "filter: second arg must be a list"@
    } else {
        "reduce: third arg must be a list"@
    }
}

pub open spec fn msg_predicate(f: Seq<char>) -> Seq<char> {
    "filter: predicate '"@ + f + "' must return Bool"@
}

/// The function symbol of a higher-order form.
pub open spec fn fn_arg(args: Seq<ExprModel>, form: Seq<char>) -> Result<Seq<char>, EvalErrorModel> {
    if args.len() > 0 && args[0] is Var {
        Ok(args[0]->Var_0)
    } else {
        Err(tm(msg_first(form)))
    }
}

/// Evaluates `e`; the new state and the result.
pub open spec fn ev_expr(c: Ctx, st: EvState, env: Env, fuel: nat, e: ExprModel) -> (EvState, ERes)
    decreases fuel, esize(e), 3int, 0int,
{
    match e {
        ExprModel::Lit(v) => (st, Ok(v)),
        ExprModel::Var(n) => (
            st,
            match env_lookup(env, n, 0) {
                Some(v) => Ok(v),
                None => Err(EvalErrorModel::UnknownVariable(n)),
            },
        ),
        ExprModel::If(cnd, t, f) => {
            let (s1, r) = ev_expr(c, st, env, fuel, *cnd);
            match r {
                Err(x) => (s1, Err(x)),
                Ok(ValueModel::Bool(b)) => if b {
                    ev_expr(c, s1, env, fuel, *t)
                } else {
                    ev_expr(c, s1, env, fuel, *f)
                },
                Ok(_) => (s1, Err(tm("if condition"@))),
            }
        },
        ExprModel::Call(name, args) => ev_call(c, st, env, fuel, name, args),
    }
}

/// Evaluates a call form.
pub open spec fn ev_call(c: Ctx, st: EvState, env: Env, fuel: nat, name: Seq<char>, args: Seq<ExprModel>) -> (
    EvState,
    ERes,
)
    decreases fuel, asize(args, 0), 2int, 0int,
{
    if name == "and"@ {
        ev_and(c, st, env, fuel, args, 0)
    } else if name == "or"@ {
        ev_or(c, st, env, fuel, args, 0)
    } else if name == "map"@ || name == "filter"@ {
        match fn_arg(args, name) {
            Err(x) => (st, Err(x)),
            Ok(f) => if args.len() < 2 {
                (st, Err(tm(msg_missing_list(name))))
            } else {
                proof {
                    lemma_asize(args, 0, 1);
                }
                let (s1, r) = ev_expr(c, st, env, fuel, args[1]);
                match r {
                    Err(x) => (s1, Err(x)),
                    Ok(ValueModel::List(items)) => {
                        let (s2, r2) = if name == "map"@ {
                            ev_map(c, s1, fuel, f, items, 0)
                        } else {
                            ev_filter(c, s1, fuel, f, items, 0)
                        };
                        match r2 {
                            Ok(vs) => (s2, Ok(ValueModel::List(vs))),
                            Err(x) => (s2, Err(x)),
                        }
                    },
                    Ok(_) => (s1, Err(tm(msg_not_list(name)))),
                }
            },
        }
    } else if name == "reduce"@ {
        match fn_arg(args, name) {
            Err(x) => (st, Err(x)),
            Ok(f) => if args.len() < 2 {
                (st, Err(tm("reduce: missing init arg"@)))
            } else {
                proof {
                    lemma_asize(args, 0, 1);
                }
                let (s1, r) = ev_expr(c, st, env, fuel, args[1]);
                match r {
                    Err(x) => (s1, Err(x)),
                    Ok(init) => if args.len() < 3 {
                        (s1, Err(tm(msg_missing_list(name))))
                    } else {
                        proof {
                            lemma_asize(args, 0, 2);
                        }
                        let (s2, r2) = ev_expr(c, s1, env, fuel, args[2]);
                        match r2 {
                            Err(x) => (s2, Err(x)),
                            Ok(ValueModel::List(items)) => ev_reduce(c, s2, fuel, f, init, items, 0),
                            Ok(_) => (s2, Err(tm(msg_not_list(name)))),
                        }
                    },
                }
            },
        }
    } else {
        let (s1, r) = ev_args(c, st, env, fuel, args, 0);
        match r {
            Err(x) => (s1, Err(x)),
            Ok(vs) => if name == "list"@ {
                (s1, Ok(ValueModel::List(vs)))
            } else {
                ev_invoke(c, s1, fuel, name, vs)
            },
        }
    }
}

/// Evaluates `args[k..]` left to right, stopping at the first error.
pub open spec fn ev_args(c: Ctx, st: EvState, env: Env, fuel: nat, args: Seq<ExprModel>, k: int) -> (
    EvState,
    Result<Seq<ValueModel>, EvalErrorModel>,
)
    decreases fuel, asize(args, k), 1int, 0int,
{
    if k < 0 || k >= args.len() {
        (st, Ok(seq![]))
    } else {
        let (s1, r) = ev_expr(c, st, env, fuel, args[k]);
        match r {
            Err(x) => (s1, Err(x)),
            Ok(v) => {
                let (s2, r2) = ev_args(c, s1, env, fuel, args, k + 1);
                match r2 {
                    Err(x) => (s2, Err(x)),
                    Ok(vs) => (s2, Ok(seq![v] + vs)),
                }
            },
        }
    }
}

/// `(and ...)` from `args[k]` on: `false` at the first false operand.
pub open spec fn ev_and(c: Ctx, st: EvState, env: Env, fuel: nat, args: Seq<ExprModel>, k: int) -> (EvState, ERes)
    decreases fuel, asize(args, k), 1int, 0int,
{
    if k < 0 || k >= args.len() {
        (st, Ok(ValueModel::Bool(true)))
    } else {
        let (s1, r) = ev_expr(c, st, env, fuel, args[k]);
        match r {
            Err(x) => (s1, Err(x)),
            Ok(ValueModel::Bool(b)) => if b {
                ev_and(c, s1, env, fuel, args, k + 1)
            } else {
                (s1, Ok(ValueModel::Bool(false)))
            },
            Ok(_) => (s1, Err(tm("and"@))),
        }
    }
}

/// `(or ...)` from `args[k]` on: `true` at the first true operand.
pub open spec fn ev_or(c: Ctx, st: EvState, env: Env, fuel: nat, args: Seq<ExprModel>, k: int) -> (EvState, ERes)
    decreases fuel, asize(args, k), 1int, 0int,
{
    if k < 0 || k >= args.len() {
        (st, Ok(ValueModel::Bool(false)))
    } else {
        let (s1, r) = ev_expr(c, st, env, fuel, args[k]);
        match r {
            Err(x) => (s1, Err(x)),
            Ok(ValueModel::Bool(b)) => if b {
                (s1, Ok(ValueModel::Bool(true)))
            } else {
                ev_or(c, s1, env, fuel, args, k + 1)
            },
            Ok(_) => (s1, Err(tm("or"@))),
        }
    }
}

/// `f` applied to each of `items[k..]`.
pub open spec fn ev_map(c: Ctx, st: EvState, fuel: nat, f: Seq<char>, items: Seq<ValueModel>, k: int) -> (
    EvState,
    Result<Seq<ValueModel>, EvalErrorModel>,
)
    decreases fuel, 0nat, 1int, items.len() - k,
{
    if k < 0 || k >= items.len() {
        (st, Ok(seq![]))
    } else {
        let (s1, r) = ev_invoke(c, st, fuel, f, seq![items[k]]);
        match r {
            Err(x) => (s1, Err(x)),
            Ok(v) => {
                let (s2, r2) = ev_map(c, s1, fuel, f, items, k + 1);
                match r2 {
                    Err(x) => (s2, Err(x)),
                    Ok(vs) => (s2, Ok(seq![v] + vs)),
                }
            },
        }
    }
}

/// The items of `items[k..]` for which `f` gives `true`.
pub open spec fn ev_filter(c: Ctx, st: EvState, fuel: nat, f: Seq<char>, items: Seq<ValueModel>, k: int) -> (
    EvState,
    Result<Seq<ValueModel>, EvalErrorModel>,
)
    decreases fuel, 0nat, 1int, items.len() - k,
{
    if k < 0 || k >= items.len() {
        (st, Ok(seq![]))
    } else {
        let (s1, r) = ev_invoke(c, st, fuel, f, seq![items[k]]);
        match r {
            Err(x) => (s1, Err(x)),
            Ok(ValueModel::Bool(keep)) => {
                let (s2, r2) = ev_filter(c, s1, fuel, f, items, k + 1);
                match r2 {
                    Err(x) => (s2, Err(x)),
                    Ok(vs) => (s2, Ok(if keep { seq![items[k]] + vs } else { vs })),
                }
            },
            Ok(_) => (s1, Err(tm(msg_predicate(f)))),
        }
    }
}

/// Folds `f` over `items[k..]` from `acc`.
pub open spec fn ev_reduce(
    c: Ctx,
    st: EvState,
    fuel: nat,
    f: Seq<char>,
    acc: ValueModel,
    items: Seq<ValueModel>,
    k: int,
) -> (EvState, ERes)
    decreases fuel, 0nat, 1int, items.len() - k,
{
    if k < 0 || k >= items.len() {
        (st, Ok(acc))
    } else {
        let (s1, r) = ev_invoke(c, st, fuel, f, seq![acc, items[k]]);
        match r {
            Err(x) => (s1, Err(x)),
            Ok(v) => ev_reduce(c, s1, fuel, f, v, items, k + 1),
        }
    }
}

/// The stack after popping its last call (unchanged when empty).
pub open spec fn pop_stack(s: Seq<KeyModel>) -> Seq<KeyModel> {
    if s.len() > 0 {
        s.drop_last()
    } else {
        s
    }
}

/// Calls `name` on argument values: the memoized result if there is one;
/// the fallback for a call already in progress or past the nesting limit;
/// otherwise the rule's body (or the builtin) is evaluated and an `Ok`
/// result memoized.
pub open spec fn ev_invoke(c: Ctx, st: EvState, fuel: nat, name: Seq<char>, args: Seq<ValueModel>) -> (EvState, ERes)
    decreases fuel, 0nat, 0int, 0int,
{
    let key = (name, args);
    match cache_lookup(st.cache, key, 0) {
        Some(v) => (st, Ok(v)),
        None => if st.stack.contains(key) || fuel == 0 {
            ev_fallback(c, st, name, args)
        } else {
            let s1 = EvState { stack: st.stack.push(key), ..st };
            let (s2, r) = match find_rule(c.m.rules, name) {
                Some(i) => ev_expr(
                    c,
                    s1,
                    bind_env(c.m.rules[i].params, args),
                    (fuel - 1) as nat,
                    c.m.rules[i].body,
                ),
                None => ev_builtin(c, s1, name, args),
            };
            let s3 = EvState { stack: pop_stack(s2.stack), ..s2 };
            match r {
                Ok(v) => (EvState { cache: s3.cache.push((key, v)), ..s3 }, Ok(v)),
                Err(x) => (s3, Err(x)),
            }
        },
    }
}


// ---------------------------------------------------------------------------
// Executable state and helpers
// ---------------------------------------------------------------------------

/// A call: the function's name and the argument values.
pub struct CallKey {
    pub name: String,
    pub args: Vec<Value>,
}

pub open spec fn vals(v: Seq<Value>) -> Seq<ValueModel> {
    crate::reconcile::types::value_models(v)
}

pub open spec fn key_model(k: CallKey) -> KeyModel {
    (k.name@, vals(k.args@))
}

/// The evaluator's state.
pub struct EvalState {
    pub cache: Vec<(CallKey, Value)>,
    pub stack: Vec<CallKey>,
    pub diagnostics: Vec<ReconcileDiagnostic>,
}

impl View for EvalState {
    type V = EvState;

    open spec fn view(&self) -> EvState {
        EvState {
            cache: self.cache@.map_values(|e: (CallKey, Value)| (key_model(e.0), e.1@)),
            stack: self.stack@.map_values(|k: CallKey| key_model(k)),
            diags: self.diagnostics@.map_values(|d: ReconcileDiagnostic| diag_model(d)),
        }
    }
}

pub open spec fn ctx(module: &Module, snap: &WorkspaceSnapshot, rets: &StringHashMap<Type>) -> Ctx {
    Ctx { m: module@, snap: snap@, rets: rets@ }
}

pub open spec fn env_model(env: Seq<(String, Value)>) -> Env {
    env.map_values(|b: (String, Value)| (b.0@, b.1@))
}

pub open spec fn eres(r: Result<Value, EvalError>) -> ERes {
    match r {
        Ok(v) => Ok(v@),
        Err(x) => Err(x@),
    }
}

pub open spec fn vres(r: Result<Vec<Value>, EvalError>) -> Result<Seq<ValueModel>, EvalErrorModel> {
    match r {
        Ok(v) => Ok(vals(v@)),
        Err(x) => Err(x@),
    }
}

fn clone_values(v: &Vec<Value>) -> (r: Vec<Value>)
    ensures
        vals(r@) == vals(v@),
{
    proof {
        crate::reconcile::types::lemma_value_models(v@);
    }
    let mut r: Vec<Value> = Vec::new();
    let mut k: usize = 0;
    while k < v.len()
        invariant
            k <= v.len(),
            r.len() == k,
            vals(v@).len() == v.len(),
            forall|j: int| 0 <= j < v.len() ==> #[trigger] vals(v@)[j] == v@[j]@,
            forall|j: int| 0 <= j < k ==> #[trigger] r@[j]@ == v@[j]@,
        decreases v.len() - k,
    {
        r.push(crate::reconcile::types::value_clone(&v[k]));
        k += 1;
    }
    proof {
        crate::reconcile::types::lemma_value_models(r@);
        assert forall|j: int| 0 <= j < r.len() implies vals(r@)[j] == vals(v@)[j] by {
            assert(vals(r@)[j] == r@[j]@);
            assert(vals(v@)[j] == v@[j]@);
        }
        assert(vals(r@) =~= vals(v@));
    }
    r
}

fn values_eq(a: &Vec<Value>, b: &Vec<Value>) -> (r: bool)
    ensures
        r == (vals(a@) == vals(b@)),
{
    proof {
        crate::reconcile::types::lemma_value_models(a@);
        crate::reconcile::types::lemma_value_models(b@);
    }
    if a.len() != b.len() {
        return false;
    }
    let mut k: usize = 0;
    while k < a.len()
        invariant
            k <= a.len(),
            a.len() == b.len(),
            vals(a@).len() == a.len(),
            vals(b@).len() == b.len(),
            forall|j: int| 0 <= j < a.len() ==> #[trigger] vals(a@)[j] == a@[j]@,
            forall|j: int| 0 <= j < b.len() ==> #[trigger] vals(b@)[j] == b@[j]@,
            forall|j: int| 0 <= j < k ==> a@[j]@ == b@[j]@,
        decreases a.len() - k,
    {
        if !crate::reconcile::types::value_eq(&a[k], &b[k]) {
            assert(vals(a@)[k as int] != vals(b@)[k as int]);
            return false;
        }
        k += 1;
    }
    assert(vals(a@) =~= vals(b@));
    true
}

fn key_is(k: &CallKey, name: &str, args: &Vec<Value>) -> (r: bool)
    ensures
        r == (key_model(*k) == (name@, vals(args@))),
{
    crate::text::str_eq(k.name.as_str(), name) && values_eq(&k.args, args)
}

fn cache_find(st: &EvalState, name: &str, args: &Vec<Value>) -> (r: Option<usize>)
    ensures
        r matches Some(i) ==> i < st.cache.len() && cache_lookup(st@.cache, (name@, vals(args@)), 0) == Some(
            st.cache@[i as int].1@,
        ),
        r is None ==> cache_lookup(st@.cache, (name@, vals(args@)), 0) is None,
{
    let ghost key = (name@, vals(args@));
    let mut k: usize = 0;
    while k < st.cache.len()
        invariant
            k <= st.cache.len(),
            key == (name@, vals(args@)),
            cache_lookup(st@.cache, key, 0) == cache_lookup(st@.cache, key, k as int),
        decreases st.cache.len() - k,
    {
        assert(st@.cache[k as int] == (key_model(st.cache@[k as int].0), st.cache@[k as int].1@));
        if key_is(&st.cache[k].0, name, args) {
            return Some(k);
        }
        k += 1;
    }
    None
}

fn stack_has(st: &EvalState, name: &str, args: &Vec<Value>) -> (r: bool)
    ensures
        r == st@.stack.contains((name@, vals(args@))),
{
    let ghost key = (name@, vals(args@));
    let mut k: usize = 0;
    while k < st.stack.len()
        invariant
            k <= st.stack.len(),
            key == (name@, vals(args@)),
            forall|j: int| 0 <= j < k ==> st@.stack[j] != key,
        decreases st.stack.len() - k,
    {
        assert(st@.stack[k as int] == key_model(st.stack@[k as int]));
        if key_is(&st.stack[k], name, args) {
            return true;
        }
        k += 1;
    }
    false
}

fn env_get(env: &Vec<(String, Value)>, name: &str) -> (r: Option<Value>)
    ensures
        r matches Some(v) ==> env_lookup(env_model(env@), name@, 0) == Some(v@),
        r is None ==> env_lookup(env_model(env@), name@, 0) is None,
{
    let ghost em = env_model(env@);
    let mut k: usize = 0;
    while k < env.len()
        invariant
            k <= env.len(),
            em == env_model(env@),
            env_lookup(em, name@, 0) == env_lookup(em, name@, k as int),
        decreases env.len() - k,
    {
        assert(em[k as int] == (env@[k as int].0@, env@[k as int].1@));
        if crate::text::str_eq(env[k].0.as_str(), name) {
            return Some(crate::reconcile::types::value_clone(&env[k].1));
        }
        k += 1;
    }
    None
}

fn bind_env_exec(params: &Vec<String>, args: &Vec<Value>) -> (r: Vec<(String, Value)>)
    ensures
        env_model(r@) == bind_env(crate::reconcile::ast::names(params@), vals(args@)),
{
    proof {
        crate::reconcile::types::lemma_value_models(args@);
    }
    let n = if params.len() < args.len() {
        params.len()
    } else {
        args.len()
    };
    let mut r: Vec<(String, Value)> = Vec::new();
    let mut k: usize = 0;
    while k < n
        invariant
            k <= n,
            n <= params.len(),
            n <= args.len(),
            vals(args@).len() == args.len(),
            forall|j: int| 0 <= j < args.len() ==> #[trigger] vals(args@)[j] == args@[j]@,
            r.len() == k,
            forall|j: int| 0 <= j < k ==> #[trigger] r@[j].0@ == params@[j]@ && r@[j].1@ == args@[j]@,
        decreases n - k,
    {
        r.push((params[k].clone(), crate::reconcile::types::value_clone(&args[k])));
        k += 1;
    }
    assert(env_model(r@) =~= bind_env(crate::reconcile::ast::names(params@), vals(args@)));
    r
}

fn call_note_exec(args: &Vec<Value>) -> (r: String)
    ensures
        r@ == call_note(vals(args@), 0),
{
    proof {
        crate::reconcile::types::lemma_value_models(args@);
    }
    let mut k: usize = 0;
    while k < args.len()
        invariant
            k <= args.len(),
            vals(args@).len() == args.len(),
            forall|j: int| 0 <= j < args.len() ==> #[trigger] vals(args@)[j] == args@[j]@,
            call_note(vals(args@), 0) == call_note(vals(args@), k as int),
        decreases args.len() - k,
    {
        match &args[k] {
            Value::NoteRef(id) => {
                return id.clone();
            },
            Value::CheckboxRef(cid) => {
                return cid.note_id.clone();
            },
            _ => {},
        }
        k += 1;
    }
    String::new()
}

fn unknown_value_exec(t: &Type, unknown_status: Status) -> (r: Value)
    ensures
        r@ == unknown_value(*t, unknown_status),
{
    proof {
        crate::reconcile::types::lemma_value_models(Seq::<Value>::empty());
        assert(vals(Seq::<Value>::empty()) =~= Seq::<ValueModel>::empty());
    }
    match t {
        Type::Bool => Value::Bool(false),
        Type::Int => Value::Int(0),
        Type::Nil => Value::Nil,
        Type::Status => Value::Status(unknown_status),
        Type::List(_) => Value::List(Vec::new()),
        Type::NoteRef => Value::NoteRef(String::new()),
        Type::CheckboxRef => Value::CheckboxRef(CheckboxId { note_id: String::new(), line_idx: 0 }),
        Type::CheckboxWriteback => Value::CheckboxWriteback(crate::reconcile::types::CheckboxWriteback::Keep),
        _ => Value::String(String::new()),
    }
}

fn name_in(name: &str, options: &[&str]) -> (r: bool)
    ensures
        r == exists|k: int| 0 <= k < options@.len() && name@ == #[trigger] options@[k]@,
{
    let mut k: usize = 0;
    while k < options.len()
        invariant
            k <= options.len(),
            forall|j: int| 0 <= j < k ==> name@ != #[trigger] options@[j]@,
        decreases options.len() - k,
    {
        if crate::text::str_eq(name, options[k]) {
            return true;
        }
        k += 1;
    }
    false
}

fn call_type_exec(module: &Module, snap: &WorkspaceSnapshot, rets: &StringHashMap<Type>, name: &str, args: &Vec<Value>) -> (r: Type)
    ensures
        r == call_type(ctx(module, snap, rets), name@, vals(args@)),
{
    proof {
        crate::reconcile::types::lemma_value_models(args@);
    }
    let is = |x: &str| -> (b: bool)
        ensures
            b == (name@ == x@),
        { crate::text::str_eq(name, x) };
    if is("empty?") || is("all_done") || is("all_done?") || is("eq?") || is("not") || is("and") || is("or") || is(
        "done?",
    ) || is("todo?") || is("wip?") || is("none?") || is("nil?") || is("contains?") || is("<") || is(">") || is(
        "<=",
    ) || is(">=") {
        Type::Bool
    } else if is("+") || is("-") || is("length") {
        Type::Int
    } else if is("observe_checked") || is("aggregate_status") {
        Type::Status
    } else if is("observe_meta") {
        if args.len() > 1 {
            match &args[1] {
                Value::String(field) => {
                    let ghost d = snap@.defaults;
                    match crate::reconcile::observe::lookup_field(&snap.metadata_defaults, field.as_str()) {
                        Some(k) => crate::reconcile::typecheck::type_of_lit(&snap.metadata_defaults[k].1),
                        None => Type::String,
                    }
                },
                _ => Type::Any,
            }
        } else {
            Type::Any
        }
    } else if is("targets") || is("backlinks") {
        Type::List(Box::new(Type::NoteRef))
    } else if is("children") || is("local_checkboxes") {
        Type::List(Box::new(Type::CheckboxRef))
    } else if is("map") || is("filter") || is("list") || is("union") || is("dedup") {
        Type::List(Box::new(Type::Any))
    } else if is("parent") {
        Type::Any
    } else if is("owner_note") {
        Type::NoteRef
    } else {
        match rets.get(name) {
            Some(t) => crate::reconcile::types::type_clone(t),
            None => Type::Any,
        }
    }
}

fn concat_str(a: &str, b: &str) -> (r: String)
    ensures
        r@ == a@ + b@,
{
    let mut v = chars_of_str(a);
    let w = chars_of_str(b);
    let mut k: usize = 0;
    let ghost start = v@;
    while k < w.len()
        invariant
            k <= w.len(),
            v@ == start + w@.take(k as int),
        decreases w.len() - k,
    {
        v.push(w[k]);
        assert(w@.take(k + 1) =~= w@.take(k as int).push(w@[k as int]));
        k += 1;
    }
    assert(w@.take(w.len() as int) =~= w@);
    crate::text::string_from_chars(&v)
}

fn chars_of_str(s: &str) -> (v: Vec<char>)
    ensures
        v@ == s@,
{
    crate::text::chars_of(s)
}

fn push_diag(st: &mut EvalState, note_id: String, message: String, kind: DiagnosticKind)
    ensures
        final(st)@ == (EvState {
            diags: old(st)@.diags.push(DiagModel { note_id: note_id@, message: message@, kind }),
            ..old(st)@
        }),
{
    let ghost before = st@;
    st.diagnostics.push(
        ReconcileDiagnostic {
            note_id,
            message,
            kind,
            severity: DiagnosticSeverity::Error,
            location: None,
            related_locations: Vec::new(),
        },
    );
    assert(st@.diags =~= before.diags.push(DiagModel { note_id: note_id@, message: message@, kind }));
    assert(st@.cache =~= before.cache);
    assert(st@.stack =~= before.stack);
}

fn cycle_fallback(
    module: &Module,
    snap: &WorkspaceSnapshot,
    rets: &StringHashMap<Type>,
    st: &mut EvalState,
    name: &str,
    args: &Vec<Value>,
) -> (r: Value)
    ensures
        (final(st)@, Ok::<ValueModel, EvalErrorModel>(r@)) == ev_fallback(
            ctx(module, snap, rets),
            old(st)@,
            name@,
            vals(args@),
        ),
{
    if module.policy.cycle == CyclePolicy::Error {
        let note = call_note_exec(args);
        let msg = concat_str("cycle detected while evaluating ", name);
        push_diag(st, note, msg, DiagnosticKind::Cycle);
    }
    let t = call_type_exec(module, snap, rets, name, args);
    unknown_value_exec(&t, module.policy.unknown_status)
}


fn note_ref_list(ids: &Vec<String>) -> (r: Vec<Value>)
    ensures
        vals(r@) == note_refs(crate::reconcile::ast::names(ids@)),
{
    let mut r: Vec<Value> = Vec::new();
    let mut k: usize = 0;
    while k < ids.len()
        invariant
            k <= ids.len(),
            r.len() == k,
            forall|j: int| 0 <= j < k ==> #[trigger] r@[j]@ == ValueModel::NoteRef(ids@[j]@),
        decreases ids.len() - k,
    {
        r.push(Value::NoteRef(ids[k].clone()));
        k += 1;
    }
    proof {
        crate::reconcile::types::lemma_value_models(r@);
        assert forall|j: int| 0 <= j < r.len() implies vals(r@)[j] == note_refs(crate::reconcile::ast::names(ids@))[j] by {
            assert(vals(r@)[j] == r@[j]@);
        }
        assert(vals(r@) =~= note_refs(crate::reconcile::ast::names(ids@)));
    }
    r
}

fn box_ref_list(id: &str, cbs: &Vec<CheckboxId>) -> (r: Vec<Value>)
    requires
        forall|k: int| 0 <= k < cbs.len() ==> #[trigger] cbs@[k].note_id@ == id@,
    ensures
        vals(r@) == box_refs(id@, cbs@.map_values(|c: CheckboxId| c.line_idx)),
{
    let mut r: Vec<Value> = Vec::new();
    let mut k: usize = 0;
    while k < cbs.len()
        invariant
            k <= cbs.len(),
            r.len() == k,
            forall|q: int| 0 <= q < cbs.len() ==> #[trigger] cbs@[q].note_id@ == id@,
            forall|j: int| 0 <= j < k ==> #[trigger] r@[j]@ == ValueModel::CheckboxRef(id@, cbs@[j].line_idx),
        decreases cbs.len() - k,
    {
        r.push(Value::CheckboxRef(CheckboxId { note_id: cbs[k].note_id.clone(), line_idx: cbs[k].line_idx }));
        k += 1;
    }
    proof {
        crate::reconcile::types::lemma_value_models(r@);
        assert forall|j: int| 0 <= j < r.len() implies vals(r@)[j] == box_refs(
            id@,
            cbs@.map_values(|c: CheckboxId| c.line_idx),
        )[j] by {
            assert(vals(r@)[j] == r@[j]@);
        }
        assert(vals(r@) =~= box_refs(id@, cbs@.map_values(|c: CheckboxId| c.line_idx)));
    }
    r
}

fn contains_value(items: &Vec<Value>, x: &Value) -> (r: bool)
    ensures
        r == vals(items@).contains(x@),
{
    proof {
        crate::reconcile::types::lemma_value_models(items@);
    }
    let mut k: usize = 0;
    while k < items.len()
        invariant
            k <= items.len(),
            vals(items@).len() == items.len(),
            forall|j: int| 0 <= j < items.len() ==> #[trigger] vals(items@)[j] == items@[j]@,
            forall|j: int| 0 <= j < k ==> items@[j]@ != x@,
        decreases items.len() - k,
    {
        if crate::reconcile::types::value_eq(&items[k], x) {
            assert(vals(items@)[k as int] == x@);
            return true;
        }
        k += 1;
    }
    false
}

fn concat_values(xs: &Vec<Value>, ys: &Vec<Value>) -> (r: Vec<Value>)
    ensures
        vals(r@) == vals(xs@) + vals(ys@),
{
    proof {
        crate::reconcile::types::lemma_value_models(ys@);
    }
    let mut r = clone_values(xs);
    let mut k: usize = 0;
    while k < ys.len()
        invariant
            k <= ys.len(),
            vals(ys@).len() == ys.len(),
            forall|j: int| 0 <= j < ys.len() ==> #[trigger] vals(ys@)[j] == ys@[j]@,
            vals(r@) == vals(xs@) + vals(ys@).take(k as int),
        decreases ys.len() - k,
    {
        let ghost before = r@;
        r.push(crate::reconcile::types::value_clone(&ys[k]));
        proof {
            crate::reconcile::types::lemma_value_models(before);
            crate::reconcile::types::lemma_value_models(r@);
            assert(vals(r@) =~= vals(before).push(ys@[k as int]@));
            assert(vals(ys@).take(k + 1) =~= vals(ys@).take(k as int).push(vals(ys@)[k as int]));
        }
        k += 1;
    }
    assert(vals(ys@).take(ys.len() as int) =~= vals(ys@));
    r
}

fn add_new_exec(acc: Vec<Value>, ys: &Vec<Value>) -> (r: Vec<Value>)
    ensures
        vals(r@) == add_new(vals(acc@), vals(ys@), 0),
{
    proof {
        crate::reconcile::types::lemma_value_models(ys@);
    }
    let ghost start = vals(acc@);
    let mut acc = acc;
    let mut k: usize = 0;
    while k < ys.len()
        invariant
            k <= ys.len(),
            vals(ys@).len() == ys.len(),
            forall|j: int| 0 <= j < ys.len() ==> #[trigger] vals(ys@)[j] == ys@[j]@,
            add_new(start, vals(ys@), 0) == add_new(vals(acc@), vals(ys@), k as int),
        decreases ys.len() - k,
    {
        if !contains_value(&acc, &ys[k]) {
            let ghost before = acc@;
            acc.push(crate::reconcile::types::value_clone(&ys[k]));
            proof {
                crate::reconcile::types::lemma_value_models(before);
                crate::reconcile::types::lemma_value_models(acc@);
                assert(vals(acc@) =~= vals(before).push(ys@[k as int]@));
            }
        }
        k += 1;
    }
    acc
}

fn statuses_exec(items: &Vec<Value>) -> (r: Option<Vec<Status>>)
    ensures
        r matches Some(ss) ==> statuses_of(vals(items@)) == Some(ss@),
        r is None ==> statuses_of(vals(items@)) is None,
{
    proof {
        crate::reconcile::types::lemma_value_models(items@);
    }
    let ghost vs = vals(items@);
    let mut ss: Vec<Status> = Vec::new();
    let mut k: usize = 0;
    assert(vs.take(0) =~= Seq::<ValueModel>::empty());
    while k < items.len()
        invariant
            k <= items.len(),
            vs == vals(items@),
            vs.len() == items.len(),
            forall|j: int| 0 <= j < items.len() ==> #[trigger] vs[j] == items@[j]@,
            statuses_of(vs.take(k as int)) == Some(ss@),
        decreases items.len() - k,
    {
        assert(vs.take(k + 1).drop_last() =~= vs.take(k as int));
        assert(vs.take(k + 1).last() == items@[k as int]@);
        match &items[k] {
            Value::Status(st) => {
                ss.push(*st);
            },
            _ => {
                proof {
                    lemma_statuses_none(vs, k as int);
                }
                return None;
            },
        }
        k += 1;
    }
    assert(vs.take(items.len() as int) =~= vs);
    Some(ss)
}

proof fn lemma_statuses_none(vs: Seq<ValueModel>, k: int)
    requires
        0 <= k < vs.len(),
        !(vs[k] is Status),
    ensures
        statuses_of(vs) is None,
    decreases vs.len(),
{
    if k < vs.len() - 1 {
        assert(vs.drop_last()[k] == vs[k]);
        lemma_statuses_none(vs.drop_last(), k);
    }
}

fn all_done_exec(items: &Vec<Value>) -> (r: bool)
    ensures
        r == forall|k: int| 0 <= k < vals(items@).len() ==> #[trigger] vals(items@)[k] == ValueModel::Status(Status::Done),
{
    proof { crate::reconcile::types::lemma_value_models(items@); }
    let mut k: usize = 0;
    while k < items.len()
        invariant
            k <= items.len(),
            vals(items@).len() == items.len(),
            forall|j: int| 0 <= j < items.len() ==> #[trigger] vals(items@)[j] == items@[j]@,
            forall|j: int| 0 <= j < k ==> #[trigger] vals(items@)[j] == ValueModel::Status(Status::Done),
        decreases items.len() - k,
    {
        match &items[k] {
            Value::Status(Status::Done) => {},
            _ => {
                assert(vals(items@)[k as int] != ValueModel::Status(Status::Done));
                return false;
            },
        }
        k += 1;
    }
    true
}

/// A builtin other than `observe_meta`.
fn builtin_pure(module: &Module, snap: &WorkspaceSnapshot, rets: &StringHashMap<Type>, name: &str, args: &Vec<Value>) -> (r: Result<Value, EvalError>)
    ensures
        eres(r) == builtin_value(ctx(module, snap, rets), name@, vals(args@)),
{
    proof {
        crate::reconcile::types::lemma_value_models(args@);
    }
    let is = |x: &str| -> (b: bool)
        ensures
            b == (name@ == x@),
        { crate::text::str_eq(name, x) };
    let one = args.len() == 1;
    let two = args.len() == 2;
    let mismatch = |ctx: &str| -> (e: EvalError)
        ensures
            e@ == tm(ctx@),
        { EvalError::TypeMismatch { context: ctx.to_owned() } };
    if is("empty?") {
        if one {
            if let Value::List(items) = &args[0] {
                proof { crate::reconcile::types::lemma_value_models(items@); }
                return Ok(Value::Bool(items.len() == 0));
            }
        }
        Err(mismatch(name))
    } else if is("all_done") || is("all_done?") {
        if one {
            if let Value::List(items) = &args[0] {
                return Ok(Value::Bool(all_done_exec(items)));
            }
        }
        Err(mismatch("all_done"))
    } else if is("aggregate_status") {
        if one {
            if let Value::List(items) = &args[0] {
                return match statuses_exec(items) {
                    Some(ss) => Ok(Value::Status(Status::aggregate(ss.as_slice()))),
                    None => Err(mismatch(name)),
                };
            }
        }
        Err(mismatch(name))
    } else if is("eq?") {
        if two {
            Ok(Value::Bool(crate::reconcile::types::value_eq(&args[0], &args[1])))
        } else {
            Err(mismatch(name))
        }
    } else if is("not") {
        if one {
            if let Value::Bool(b) = &args[0] {
                return Ok(Value::Bool(!*b));
            }
        }
        Err(mismatch(name))
    } else if is("done?") || is("todo?") || is("wip?") || is("none?") {
        if one {
            if let Value::Status(st) = &args[0] {
                let res = if is("done?") {
                    *st == Status::Done
                } else if is("todo?") {
                    *st == Status::Todo
                } else if is("wip?") {
                    *st == Status::Wip
                } else {
                    *st == Status::NotApplicable
                };
                return Ok(Value::Bool(res));
            }
        }
        Err(mismatch("status predicate"))
    } else if is("observe_checked") {
        if one {
            if let Value::CheckboxRef(id) = &args[0] {
                return Ok(
                    Value::Status(
                        match snap.observe_checked(id) {
                            Some(s) => s,
                            None => module.policy.unknown_status,
                        },
                    ),
                );
            }
        }
        Err(mismatch(name))
    } else if is("targets") || is("children") || is("parent") || is("owner_note") {
        if one {
            if let Value::CheckboxRef(id) = &args[0] {
                if is("targets") {
                    let ts = snap.targets(id);
                    return Ok(Value::List(note_ref_list(&ts)));
                } else if is("children") {
                    let cs = snap.children(id);
                    return Ok(Value::List(box_ref_list(id.note_id.as_str(), &cs)));
                } else if is("parent") {
                    return Ok(
                        match snap.parent(id) {
                            Some(p) => Value::CheckboxRef(CheckboxId { note_id: id.note_id.clone(), line_idx: p.line_idx }),
                            None => Value::Nil,
                        },
                    );
                } else {
                    return Ok(Value::NoteRef(id.note_id.clone()));
                }
            }
        }
        Err(mismatch(name))
    } else if is("local_checkboxes") || is("backlinks") {
        if one {
            if let Value::NoteRef(id) = &args[0] {
                if is("backlinks") {
                    let bs = snap.backlinks(id.as_str());
                    return Ok(Value::List(note_ref_list(&bs)));
                } else {
                    let cs = snap.local_checkboxes(id.as_str());
                    return Ok(Value::List(box_ref_list(id.as_str(), &cs)));
                }
            }
        }
        Err(mismatch(name))
    } else if is("+") || is("-") {
        if two {
            if let (Value::Int(a), Value::Int(b)) = (&args[0], &args[1]) {
                return Ok(
                    Value::Int(
                        if is("+") {
                            a.wrapping_add(*b)
                        } else {
                            a.wrapping_sub(*b)
                        },
                    ),
                );
            }
        }
        Err(mismatch(name))
    } else if is("<") || is(">") || is("<=") || is(">=") {
        if two {
            if let (Value::Int(a), Value::Int(b)) = (&args[0], &args[1]) {
                let res = if is("<") {
                    *a < *b
                } else if is(">") {
                    *a > *b
                } else if is("<=") {
                    *a <= *b
                } else {
                    *a >= *b
                };
                return Ok(Value::Bool(res));
            }
        }
        Err(mismatch(name))
    } else if is("nil?") {
        if one {
            Ok(
                Value::Bool(
                    match &args[0] {
                        Value::Nil => true,
                        _ => false,
                    },
                ),
            )
        } else {
            Err(mismatch(name))
        }
    } else if is("length") {
        if one {
            if let Value::List(items) = &args[0] {
                proof { crate::reconcile::types::lemma_value_models(items@); }
                return Ok(Value::Int(#[verifier::truncate] (items.len() as i64)));
            }
        }
        Err(mismatch(name))
    } else if is("union") {
        if two {
            if let (Value::List(xs), Value::List(ys)) = (&args[0], &args[1]) {
                let both = concat_values(xs, ys);
                let acc: Vec<Value> = Vec::new();
                proof {
                    crate::reconcile::types::lemma_value_models(acc@);
                    assert(vals(acc@) =~= Seq::<ValueModel>::empty());
                }
                return Ok(Value::List(add_new_exec(acc, &both)));
            }
        }
        Err(mismatch(name))
    } else if is("contains?") {
        if two {
            if let Value::List(items) = &args[0] {
                return Ok(Value::Bool(contains_value(items, &args[1])));
            }
        }
        Err(mismatch(name))
    } else if is("dedup") {
        if one {
            if let Value::List(items) = &args[0] {
                let acc: Vec<Value> = Vec::new();
                proof {
                    crate::reconcile::types::lemma_value_models(acc@);
                    assert(vals(acc@) =~= Seq::<ValueModel>::empty());
                }
                return Ok(Value::List(add_new_exec(acc, items)));
            }
        }
        Err(mismatch(name))
    } else {
        Err(EvalError::UnknownFunction(name.to_owned()))
    }
}


fn eval_builtin(
    module: &Module,
    snap: &WorkspaceSnapshot,
    rets: &StringHashMap<Type>,
    st: &mut EvalState,
    name: &str,
    args: &Vec<Value>,
) -> (r: Result<Value, EvalError>)
    ensures
        (final(st)@, eres(r)) == ev_builtin(ctx(module, snap, rets), old(st)@, name@, vals(args@)),
{
    proof {
        crate::reconcile::types::lemma_value_models(args@);
    }
    if crate::text::str_eq(name, "observe_meta") {
        if args.len() == 2 {
            if let (Value::NoteRef(id), Value::String(field)) = (&args[0], &args[1]) {
                if !snap.has_metadata_field(id.as_str(), field.as_str()) {
                    let m1 = concat_str("unknown metadata field '", field.as_str());
                    let msg = concat_str(m1.as_str(), "'");
                    push_diag(st, id.clone(), msg, DiagnosticKind::UnknownMetadataField);
                }
                return Ok(snap.observe_meta(id.as_str(), field.as_str()));
            }
        }
        return Err(EvalError::TypeMismatch { context: name.to_owned() });
    }
    builtin_pure(module, snap, rets, name, args)
}

/// Evaluates `e` under the bindings `env`.
fn eval_expr(
    module: &Module,
    snap: &WorkspaceSnapshot,
    rets: &StringHashMap<Type>,
    st: &mut EvalState,
    env: &Vec<(String, Value)>,
    fuel: usize,
    e: &Expr,
) -> (r: Result<Value, EvalError>)
    ensures
        (final(st)@, eres(r)) == ev_expr(ctx(module, snap, rets), old(st)@, env_model(env@), fuel as nat, e@),
    decreases fuel, esize(e@), 3int, 0int,
{
    match e {
        Expr::Lit(v) => Ok(crate::reconcile::types::value_clone(v)),
        Expr::Var(n) => match env_get(env, n.as_str()) {
            Some(v) => Ok(v),
            None => Err(EvalError::UnknownVariable(n.clone())),
        },
        Expr::If { cond, then, else_ } => {
            let cv = match eval_expr(module, snap, rets, st, env, fuel, cond) {
                Ok(v) => v,
                Err(x) => return Err(x),
            };
            match cv {
                Value::Bool(true) => eval_expr(module, snap, rets, st, env, fuel, then),
                Value::Bool(false) => eval_expr(module, snap, rets, st, env, fuel, else_),
                _ => Err(EvalError::TypeMismatch { context: "if condition".to_owned() }),
            }
        },
        Expr::Call { name, args } => eval_call(module, snap, rets, st, env, fuel, name.as_str(), args),
    }
}

fn first_fn_symbol(args: &Vec<Expr>, form: &str) -> (r: Result<String, EvalError>)
    requires
        form@ == "map"@ || form@ == "filter"@ || form@ == "reduce"@,
    ensures
        match r {
            Ok(f) => fn_arg(crate::reconcile::ast::expr_models(args@), form@) == Ok::<Seq<char>, EvalErrorModel>(f@),
            Err(x) => fn_arg(crate::reconcile::ast::expr_models(args@), form@) == Err::<Seq<char>, EvalErrorModel>(x@),
        },
{
    proof {
        crate::reconcile::ast::lemma_expr_models(args@);
    }
    if args.len() > 0 {
        if let Expr::Var(n) = &args[0] {
            return Ok(n.clone());
        }
    }
    let msg = if crate::text::str_eq(form, "map") {
        "map: first arg must be a function symbol".to_owned()
    } else if crate::text::str_eq(form, "filter") {
        "filter: first arg must be a function symbol".to_owned()
    } else {
        "reduce: first arg must be a function symbol".to_owned()
    };
    Err(EvalError::TypeMismatch { context: msg })
}

fn msg_missing_list_exec(form: &str) -> (r: String)
    ensures
        r@ == msg_missing_list(form@),
{
    if crate::text::str_eq(form, "map") {
        "map: missing list arg".to_owned()
    } else if crate::text::str_eq(form, "filter") {
        "filter: missing list arg".to_owned()
    } else {
        "reduce: missing list arg".to_owned()
    }
}

fn msg_not_list_exec(form: &str) -> (r: String)
    ensures
        r@ == msg_not_list(form@),
{
    if crate::text::str_eq(form, "map") {
        "map: second arg must be a list".to_owned()
    } else if crate::text::str_eq(form, "filter") {
        "filter: second arg must be a list".to_owned()
    } else {
        "reduce: third arg must be a list".to_owned()
    }
}

/// Evaluates a call form.
fn eval_call(
    module: &Module,
    snap: &WorkspaceSnapshot,
    rets: &StringHashMap<Type>,
    st: &mut EvalState,
    env: &Vec<(String, Value)>,
    fuel: usize,
    name: &str,
    args: &Vec<Expr>,
) -> (r: Result<Value, EvalError>)
    ensures
        (final(st)@, eres(r)) == ev_call(
            ctx(module, snap, rets),
            old(st)@,
            env_model(env@),
            fuel as nat,
            name@,
            crate::reconcile::ast::expr_models(args@),
        ),
    decreases fuel, asize(crate::reconcile::ast::expr_models(args@), 0), 2int, 0int,
{
    let ghost am = crate::reconcile::ast::expr_models(args@);
    proof {
        crate::reconcile::ast::lemma_expr_models(args@);
    }
    if crate::text::str_eq(name, "and") {
        return eval_and(module, snap, rets, st, env, fuel, args);
    }
    if crate::text::str_eq(name, "or") {
        return eval_or(module, snap, rets, st, env, fuel, args);
    }
    if crate::text::str_eq(name, "map") || crate::text::str_eq(name, "filter") {
        let f = match first_fn_symbol(args, name) {
            Ok(f) => f,
            Err(x) => return Err(x),
        };
        if args.len() < 2 {
            return Err(EvalError::TypeMismatch { context: msg_missing_list_exec(name) });
        }
        proof {
            lemma_asize(am, 0, 1);
        }
        let lv = match eval_expr(module, snap, rets, st, env, fuel, &args[1]) {
            Ok(v) => v,
            Err(x) => return Err(x),
        };
        let items = match lv {
            Value::List(items) => items,
            _ => return Err(EvalError::TypeMismatch { context: msg_not_list_exec(name) }),
        };
        let r = if crate::text::str_eq(name, "map") {
            map_items(module, snap, rets, st, fuel, f.as_str(), &items)
        } else {
            filter_items(module, snap, rets, st, fuel, f.as_str(), &items)
        };
        return match r {
            Ok(vs) => {
                proof {
                    crate::reconcile::types::lemma_value_models(vs@);
                }
                Ok(Value::List(vs))
            },
            Err(x) => Err(x),
        };
    }
    if crate::text::str_eq(name, "reduce") {
        let f = match first_fn_symbol(args, name) {
            Ok(f) => f,
            Err(x) => return Err(x),
        };
        if args.len() < 2 {
            return Err(EvalError::TypeMismatch { context: "reduce: missing init arg".to_owned() });
        }
        proof {
            lemma_asize(am, 0, 1);
        }
        let init = match eval_expr(module, snap, rets, st, env, fuel, &args[1]) {
            Ok(v) => v,
            Err(x) => return Err(x),
        };
        if args.len() < 3 {
            return Err(EvalError::TypeMismatch { context: msg_missing_list_exec(name) });
        }
        proof {
            lemma_asize(am, 0, 2);
        }
        let lv = match eval_expr(module, snap, rets, st, env, fuel, &args[2]) {
            Ok(v) => v,
            Err(x) => return Err(x),
        };
        let items = match lv {
            Value::List(items) => items,
            _ => return Err(EvalError::TypeMismatch { context: msg_not_list_exec(name) }),
        };
        proof {
            crate::reconcile::types::lemma_value_models(items@);
        }
        return reduce_items(module, snap, rets, st, fuel, f.as_str(), init, &items);
    }
    let vs = match eval_args(module, snap, rets, st, env, fuel, args) {
        Ok(vs) => vs,
        Err(x) => return Err(x),
    };
    if crate::text::str_eq(name, "list") {
        proof {
            crate::reconcile::types::lemma_value_models(vs@);
        }
        return Ok(Value::List(vs));
    }
    invoke_function(module, snap, rets, st, fuel, name, vs)
}

pub open spec fn vres_cons(pre: Seq<ValueModel>, r: Result<Seq<ValueModel>, EvalErrorModel>) -> Result<Seq<ValueModel>, EvalErrorModel> {
    match r {
        Ok(vs) => Ok(pre + vs),
        Err(x) => Err(x),
    }
}

/// Evaluates the arguments left to right.
fn eval_args(
    module: &Module,
    snap: &WorkspaceSnapshot,
    rets: &StringHashMap<Type>,
    st: &mut EvalState,
    env: &Vec<(String, Value)>,
    fuel: usize,
    args: &Vec<Expr>,
) -> (r: Result<Vec<Value>, EvalError>)
    ensures
        (final(st)@, vres(r)) == ev_args(
            ctx(module, snap, rets),
            old(st)@,
            env_model(env@),
            fuel as nat,
            crate::reconcile::ast::expr_models(args@),
            0,
        ),
    decreases fuel, asize(crate::reconcile::ast::expr_models(args@), 0), 1int, 0int,
{
    let ghost am = crate::reconcile::ast::expr_models(args@);
    let ghost c = ctx(module, snap, rets);
    let ghost em = env_model(env@);
    proof {
        crate::reconcile::ast::lemma_expr_models(args@);
    }
    let ghost target = ev_args(c, st@, em, fuel as nat, am, 0);
    let mut out: Vec<Value> = Vec::new();
    let mut k: usize = 0;
    proof {
        crate::reconcile::types::lemma_value_models(out@);
        assert(vals(out@) =~= Seq::<ValueModel>::empty());
    }
    while k < args.len()
        invariant
            k <= args.len(),
            am == crate::reconcile::ast::expr_models(args@),
            am.len() == args.len(),
            forall|j: int| 0 <= j < args.len() ==> #[trigger] am[j] == args@[j]@,
            c == ctx(module, snap, rets),
            em == env_model(env@),
            target == ev_args(c, old(st)@, em, fuel as nat, am, 0),
            target.1 == vres_cons(vals(out@), ev_args(c, st@, em, fuel as nat, am, k as int).1),
            target.0 == ev_args(c, st@, em, fuel as nat, am, k as int).0,
        decreases args.len() - k,
    {
        proof {
            lemma_asize(am, 0, k as int);
        }
        let v = match eval_expr(module, snap, rets, st, env, fuel, &args[k]) {
            Ok(v) => v,
            Err(x) => return Err(x),
        };
        let ghost before_vec = out@;
        let ghost before = vals(out@);
        let ghost vm = v@;
        out.push(v);
        proof {
            assert(out@.subrange(0, out@.len() - 1) =~= before_vec);
            assert(vals(out@) == before.push(vm));
            assert(forall|r: Seq<ValueModel>| (before + (seq![vm] + r)) =~= (before.push(vm) + r));
        }
        k += 1;
    }
    proof {
        assert(vals(out@) + seq![] =~= vals(out@));
    }
    Ok(out)
}


/// `(and ...)`.
fn eval_and(
    module: &Module,
    snap: &WorkspaceSnapshot,
    rets: &StringHashMap<Type>,
    st: &mut EvalState,
    env: &Vec<(String, Value)>,
    fuel: usize,
    args: &Vec<Expr>,
) -> (r: Result<Value, EvalError>)
    ensures
        (final(st)@, eres(r)) == ev_and(
            ctx(module, snap, rets),
            old(st)@,
            env_model(env@),
            fuel as nat,
            crate::reconcile::ast::expr_models(args@),
            0,
        ),
    decreases fuel, asize(crate::reconcile::ast::expr_models(args@), 0), 1int, 0int,
{
    let ghost am = crate::reconcile::ast::expr_models(args@);
    let ghost c = ctx(module, snap, rets);
    let ghost em = env_model(env@);
    proof {
        crate::reconcile::ast::lemma_expr_models(args@);
    }
    let ghost target = ev_and(c, st@, em, fuel as nat, am, 0);
    let mut k: usize = 0;
    while k < args.len()
        invariant
            k <= args.len(),
            am == crate::reconcile::ast::expr_models(args@),
            am.len() == args.len(),
            forall|j: int| 0 <= j < args.len() ==> #[trigger] am[j] == args@[j]@,
            c == ctx(module, snap, rets),
            em == env_model(env@),
            target == ev_and(c, old(st)@, em, fuel as nat, am, 0),
            target == ev_and(c, st@, em, fuel as nat, am, k as int),
        decreases args.len() - k,
    {
        proof {
            lemma_asize(am, 0, k as int);
        }
        let v = match eval_expr(module, snap, rets, st, env, fuel, &args[k]) {
            Ok(v) => v,
            Err(x) => return Err(x),
        };
        match v {
            Value::Bool(true) => {},
            Value::Bool(false) => return Ok(Value::Bool(false)),
            _ => return Err(EvalError::TypeMismatch { context: "and".to_owned() }),
        }
        k += 1;
    }
    Ok(Value::Bool(true))
}

/// `(or ...)`.
fn eval_or(
    module: &Module,
    snap: &WorkspaceSnapshot,
    rets: &StringHashMap<Type>,
    st: &mut EvalState,
    env: &Vec<(String, Value)>,
    fuel: usize,
    args: &Vec<Expr>,
) -> (r: Result<Value, EvalError>)
    ensures
        (final(st)@, eres(r)) == ev_or(
            ctx(module, snap, rets),
            old(st)@,
            env_model(env@),
            fuel as nat,
            crate::reconcile::ast::expr_models(args@),
            0,
        ),
    decreases fuel, asize(crate::reconcile::ast::expr_models(args@), 0), 1int, 0int,
{
    let ghost am = crate::reconcile::ast::expr_models(args@);
    let ghost c = ctx(module, snap, rets);
    let ghost em = env_model(env@);
    proof {
        crate::reconcile::ast::lemma_expr_models(args@);
    }
    let ghost target = ev_or(c, st@, em, fuel as nat, am, 0);
    let mut k: usize = 0;
    while k < args.len()
        invariant
            k <= args.len(),
            am == crate::reconcile::ast::expr_models(args@),
            am.len() == args.len(),
            forall|j: int| 0 <= j < args.len() ==> #[trigger] am[j] == args@[j]@,
            c == ctx(module, snap, rets),
            em == env_model(env@),
            target == ev_or(c, old(st)@, em, fuel as nat, am, 0),
            target == ev_or(c, st@, em, fuel as nat, am, k as int),
        decreases args.len() - k,
    {
        proof {
            lemma_asize(am, 0, k as int);
        }
        let v = match eval_expr(module, snap, rets, st, env, fuel, &args[k]) {
            Ok(v) => v,
            Err(x) => return Err(x),
        };
        match v {
            Value::Bool(false) => {},
            Value::Bool(true) => return Ok(Value::Bool(true)),
            _ => return Err(EvalError::TypeMismatch { context: "or".to_owned() }),
        }
        k += 1;
    }
    Ok(Value::Bool(false))
}

fn single(v: &Value) -> (r: Vec<Value>)
    ensures
        vals(r@) == seq![v@],
{
    let mut r: Vec<Value> = Vec::new();
    r.push(crate::reconcile::types::value_clone(v));
    proof {
        crate::reconcile::types::lemma_value_models(r@);
        assert(vals(r@) =~= seq![v@]);
    }
    r
}

/// `f` applied to each item.
fn map_items(
    module: &Module,
    snap: &WorkspaceSnapshot,
    rets: &StringHashMap<Type>,
    st: &mut EvalState,
    fuel: usize,
    f: &str,
    items: &Vec<Value>,
) -> (r: Result<Vec<Value>, EvalError>)
    ensures
        (final(st)@, vres(r)) == ev_map(ctx(module, snap, rets), old(st)@, fuel as nat, f@, vals(items@), 0),
    decreases fuel, 0nat, 1int, vals(items@).len(),
{
    let ghost c = ctx(module, snap, rets);
    let ghost im = vals(items@);
    proof {
        crate::reconcile::types::lemma_value_models(items@);
    }
    let ghost target = ev_map(c, st@, fuel as nat, f@, im, 0);
    let mut out: Vec<Value> = Vec::new();
    proof {
        crate::reconcile::types::lemma_value_models(out@);
        assert(vals(out@) =~= Seq::<ValueModel>::empty());
    }
    let mut k: usize = 0;
    while k < items.len()
        invariant
            k <= items.len(),
            im == vals(items@),
            im.len() == items.len(),
            forall|j: int| 0 <= j < items.len() ==> #[trigger] im[j] == items@[j]@,
            c == ctx(module, snap, rets),
            target == ev_map(c, old(st)@, fuel as nat, f@, im, 0),
            target.1 == vres_cons(vals(out@), ev_map(c, st@, fuel as nat, f@, im, k as int).1),
            target.0 == ev_map(c, st@, fuel as nat, f@, im, k as int).0,
        decreases items.len() - k,
    {
        let one = single(&items[k]);
        let v = match invoke_function(module, snap, rets, st, fuel, f, one) {
            Ok(v) => v,
            Err(x) => return Err(x),
        };
        let ghost before_vec = out@;
        let ghost before = vals(out@);
        let ghost vm = v@;
        out.push(v);
        proof {
            assert(out@.subrange(0, out@.len() - 1) =~= before_vec);
            assert(vals(out@) == before.push(vm));
            assert(forall|r: Seq<ValueModel>| (before + (seq![vm] + r)) =~= (before.push(vm) + r));
        }
        k += 1;
    }
    proof {
        assert(vals(out@) + seq![] =~= vals(out@));
    }
    Ok(out)
}

/// The items for which `f` gives `true`.
fn filter_items(
    module: &Module,
    snap: &WorkspaceSnapshot,
    rets: &StringHashMap<Type>,
    st: &mut EvalState,
    fuel: usize,
    f: &str,
    items: &Vec<Value>,
) -> (r: Result<Vec<Value>, EvalError>)
    ensures
        (final(st)@, vres(r)) == ev_filter(ctx(module, snap, rets), old(st)@, fuel as nat, f@, vals(items@), 0),
    decreases fuel, 0nat, 1int, vals(items@).len(),
{
    let ghost c = ctx(module, snap, rets);
    let ghost im = vals(items@);
    proof {
        crate::reconcile::types::lemma_value_models(items@);
    }
    let ghost target = ev_filter(c, st@, fuel as nat, f@, im, 0);
    let mut out: Vec<Value> = Vec::new();
    proof {
        crate::reconcile::types::lemma_value_models(out@);
        assert(vals(out@) =~= Seq::<ValueModel>::empty());
    }
    let mut k: usize = 0;
    while k < items.len()
        invariant
            k <= items.len(),
            im == vals(items@),
            im.len() == items.len(),
            forall|j: int| 0 <= j < items.len() ==> #[trigger] im[j] == items@[j]@,
            c == ctx(module, snap, rets),
            target == ev_filter(c, old(st)@, fuel as nat, f@, im, 0),
            target.1 == vres_cons(vals(out@), ev_filter(c, st@, fuel as nat, f@, im, k as int).1),
            target.0 == ev_filter(c, st@, fuel as nat, f@, im, k as int).0,
        decreases items.len() - k,
    {
        let one = single(&items[k]);
        let v = match invoke_function(module, snap, rets, st, fuel, f, one) {
            Ok(v) => v,
            Err(x) => return Err(x),
        };
        match v {
            Value::Bool(keep) => {
                if keep {
                    let ghost before_vec = out@;
                    let ghost before = vals(out@);
                    let ghost vm = items@[k as int]@;
                    out.push(crate::reconcile::types::value_clone(&items[k]));
                    proof {
                        assert(out@.subrange(0, out@.len() - 1) =~= before_vec);
                        assert(vals(out@) == before.push(vm));
                        assert(forall|r: Seq<ValueModel>| (before + (seq![vm] + r)) =~= (before.push(vm) + r));
                    }
                }
            },
            _ => {
                let m1 = concat_str("filter: predicate '", f);
                let msg = concat_str(m1.as_str(), "' must return Bool");
                return Err(EvalError::TypeMismatch { context: msg });
            },
        }
        k += 1;
    }
    proof {
        assert(vals(out@) + seq![] =~= vals(out@));
    }
    Ok(out)
}

/// Folds `f` over the items from `init`.
fn reduce_items(
    module: &Module,
    snap: &WorkspaceSnapshot,
    rets: &StringHashMap<Type>,
    st: &mut EvalState,
    fuel: usize,
    f: &str,
    init: Value,
    items: &Vec<Value>,
) -> (r: Result<Value, EvalError>)
    ensures
        (final(st)@, eres(r)) == ev_reduce(ctx(module, snap, rets), old(st)@, fuel as nat, f@, init@, vals(items@), 0),
    decreases fuel, 0nat, 1int, vals(items@).len(),
{
    let ghost c = ctx(module, snap, rets);
    let ghost im = vals(items@);
    proof {
        crate::reconcile::types::lemma_value_models(items@);
    }
    let ghost target = ev_reduce(c, st@, fuel as nat, f@, init@, im, 0);
    let mut acc = init;
    let mut k: usize = 0;
    while k < items.len()
        invariant
            k <= items.len(),
            im == vals(items@),
            im.len() == items.len(),
            forall|j: int| 0 <= j < items.len() ==> #[trigger] im[j] == items@[j]@,
            c == ctx(module, snap, rets),
            target == ev_reduce(c, old(st)@, fuel as nat, f@, init@, im, 0),
            target == ev_reduce(c, st@, fuel as nat, f@, acc@, im, k as int),
        decreases items.len() - k,
    {
        let mut two: Vec<Value> = Vec::new();
        let ghost am = acc@;
        two.push(acc);
        two.push(crate::reconcile::types::value_clone(&items[k]));
        proof {
            crate::reconcile::types::lemma_value_models(two@);
            assert(vals(two@) =~= seq![am, im[k as int]]);
        }
        acc = match invoke_function(module, snap, rets, st, fuel, f, two) {
            Ok(v) => v,
            Err(x) => return Err(x),
        };
        k += 1;
    }
    Ok(acc)
}

/// Calls `name` on argument values (see `ev_invoke`).
fn invoke_function(
    module: &Module,
    snap: &WorkspaceSnapshot,
    rets: &StringHashMap<Type>,
    st: &mut EvalState,
    fuel: usize,
    name: &str,
    args: Vec<Value>,
) -> (r: Result<Value, EvalError>)
    ensures
        (final(st)@, eres(r)) == ev_invoke(ctx(module, snap, rets), old(st)@, fuel as nat, name@, vals(args@)),
    decreases fuel, 0nat, 0int, 0int,
{
    match cache_find(st, name, &args) {
        Some(i) => {
            return Ok(crate::reconcile::types::value_clone(&st.cache[i].1));
        },
        None => {},
    }
    if stack_has(st, name, &args) || fuel == 0 {
        let v = cycle_fallback(module, snap, rets, st, name, &args);
        return Ok(v);
    }
    let ghost s0 = st@;
    let key = CallKey { name: name.to_owned(), args: clone_values(&args) };
    st.stack.push(key);
    proof {
        assert(st@.stack =~= s0.stack.push((name@, vals(args@))));
        assert(st@.cache =~= s0.cache);
        assert(st@.diags =~= s0.diags);
    }
    let r = match crate::reconcile::ast::rule_index(module, name) {
        Some(i) => {
            assert(module@.rules[i as int] == module.rules@[i as int]@);
            let env = bind_env_exec(&module.rules[i].params, &args);
            eval_expr(module, snap, rets, st, &env, fuel - 1, &module.rules[i].body)
        },
        None => eval_builtin(module, snap, rets, st, name, &args),
    };
    let ghost s2 = st@;
    st.stack.pop();
    proof {
        assert(st@.stack =~= pop_stack(s2.stack));
        assert(st@.cache =~= s2.cache);
        assert(st@.diags =~= s2.diags);
    }
    match r {
        Ok(v) => {
            let ghost s3 = st@;
            let key2 = CallKey { name: name.to_owned(), args };
            let ghost km = key_model(key2);
            st.cache.push((key2, crate::reconcile::types::value_clone(&v)));
            proof {
                assert(st@.cache =~= s3.cache.push((km, v@)));
                assert(st@.stack =~= s3.stack);
                assert(st@.diags =~= s3.diags);
            }
            Ok(v)
        },
        Err(x) => Err(x),
    }
}


// ---------------------------------------------------------------------------
// Whole-workspace evaluation
// ---------------------------------------------------------------------------

/// `effective_checked` evaluated for checkboxes `boxes[k..]`.
pub open spec fn checked_pass(c: Ctx, st: EvState, boxes: Seq<(Seq<char>, usize)>, k: int) -> EvState
    decreases boxes.len() - k,
{
    if k < 0 || k >= boxes.len() {
        st
    } else {
        let s1 = ev_invoke(
            c,
            st,
            MAX_CALL_DEPTH as nat,
            "effective_checked"@,
            seq![ValueModel::CheckboxRef(boxes[k].0, boxes[k].1)],
        ).0;
        checked_pass(c, s1, boxes, k + 1)
    }
}

/// `effective_meta` evaluated for a note's materialized fields `fs[k..]`.
pub open spec fn fields_pass(c: Ctx, st: EvState, id: Seq<char>, fs: Seq<ValueModel>, k: int) -> EvState
    decreases fs.len() - k,
{
    if k < 0 || k >= fs.len() {
        st
    } else {
        let s1 = match fs[k] {
            ValueModel::Str(f) => ev_invoke(
                c,
                st,
                MAX_CALL_DEPTH as nat,
                "effective_meta"@,
                seq![ValueModel::NoteRef(id), ValueModel::Str(f)],
            ).0,
            _ => EvState {
                diags: st.diags.push(
                    DiagModel {
                        note_id: id,
                        message: "materialized_fields contains non-String item"@,
                        kind: DiagnosticKind::EvalFallback,
                    },
                ),
                ..st
            },
        };
        fields_pass(c, s1, id, fs, k + 1)
    }
}

/// `materialized_fields`, then `effective_meta` of each, for notes `ids[k..]`.
pub open spec fn notes_pass(c: Ctx, st: EvState, ids: Seq<Seq<char>>, k: int) -> EvState
    decreases ids.len() - k,
{
    if k < 0 || k >= ids.len() {
        st
    } else {
        let (s1, r) = ev_invoke(c, st, MAX_CALL_DEPTH as nat, "materialized_fields"@, seq![ValueModel::NoteRef(ids[k])]);
        let fields = match r {
            Ok(v) => v,
            Err(_) => ValueModel::List(seq![]),
        };
        let s2 = match fields {
            ValueModel::List(fs) => fields_pass(c, s1, ids[k], fs, 0),
            _ => EvState {
                diags: s1.diags.push(
                    DiagModel {
                        note_id: ids[k],
                        message: "materialized_fields returned non-List"@,
                        kind: DiagnosticKind::EvalFallback,
                    },
                ),
                ..s1
            },
        };
        notes_pass(c, s2, ids, k + 1)
    }
}

pub open spec fn empty_state() -> EvState {
    EvState { cache: seq![], stack: seq![], diags: seq![] }
}

/// The evaluator's state after the whole workspace: every checkbox's
/// `effective_checked`, then every note's materialized fields.
pub open spec fn final_state(c: Ctx) -> EvState {
    let s1 = checked_pass(
        c,
        empty_state(),
        crate::reconcile::observe::boxes_upto(c.snap.notes, c.snap.notes.len() as int),
        0,
    );
    notes_pass(c, s1, c.snap.notes.map_values(|n: crate::reconcile::observe::NoteModel| n.id), 0)
}

/// Whether `s` has an entry for `(id, f)`.
pub open spec fn has_meta_key(s: Seq<(Seq<char>, Seq<char>, ValueModel)>, id: Seq<char>, f: Seq<char>) -> bool {
    exists|i: int| 0 <= i < s.len() && #[trigger] s[i].0 == id && s[i].1 == f
}

/// Whether `s` has an entry for the checkbox `b`.
pub open spec fn has_checked_key(s: Seq<((Seq<char>, usize), Status)>, b: (Seq<char>, usize)) -> bool {
    exists|i: int| 0 <= i < s.len() && #[trigger] s[i].0 == b
}

/// No two entries for the same (note, field).
pub open spec fn meta_keys_distinct(s: Seq<(Seq<char>, Seq<char>, ValueModel)>) -> bool {
    forall|i: int, j: int| 0 <= i < j < s.len() ==> !(#[trigger] s[i].0 == #[trigger] s[j].0 && s[i].1 == s[j].1)
}

/// No two entries for the same checkbox.
pub open spec fn checked_keys_distinct(s: Seq<((Seq<char>, usize), Status)>) -> bool {
    forall|i: int, j: int| 0 <= i < j < s.len() ==> #[trigger] s[i].0 != #[trigger] s[j].0
}

/// The memoized `effective_meta(note, field)` results among `cache[..n]`,
/// each (note, field) once, at its first entry.
pub open spec fn meta_entries(cache: Seq<(KeyModel, ValueModel)>, n: int) -> Seq<(Seq<char>, Seq<char>, ValueModel)>
    decreases n,
{
    if n <= 0 {
        seq![]
    } else {
        let prev = meta_entries(cache, n - 1);
        let e = cache[n - 1];
        if e.0.0 == "effective_meta"@ && e.0.1.len() == 2 {
            match (e.0.1[0], e.0.1[1]) {
                (ValueModel::NoteRef(id), ValueModel::Str(f)) => if has_meta_key(prev, id, f) {
                    prev
                } else {
                    prev.push((id, f, e.1))
                },
                _ => prev,
            }
        } else {
            prev
        }
    }
}

/// The memoized `effective_checked(checkbox)` status results among
/// `cache[..n]`, each checkbox once, at its first entry.
pub open spec fn checked_entries(cache: Seq<(KeyModel, ValueModel)>, n: int) -> Seq<((Seq<char>, usize), Status)>
    decreases n,
{
    if n <= 0 {
        seq![]
    } else {
        let prev = checked_entries(cache, n - 1);
        let e = cache[n - 1];
        if e.0.0 == "effective_checked"@ && e.0.1.len() == 1 {
            match (e.0.1[0], e.1) {
                (ValueModel::CheckboxRef(id, line), ValueModel::Status(s)) => if has_checked_key(prev, (id, line)) {
                    prev
                } else {
                    prev.push(((id, line), s))
                },
                _ => prev,
            }
        } else {
            prev
        }
    }
}

proof fn lemma_entries_distinct(cache: Seq<(KeyModel, ValueModel)>, n: int)
    requires
        0 <= n <= cache.len(),
    ensures
        meta_keys_distinct(meta_entries(cache, n)),
        checked_keys_distinct(checked_entries(cache, n)),
    decreases n,
{
    if n > 0 {
        lemma_entries_distinct(cache, n - 1);
        let pm = meta_entries(cache, n - 1);
        let pc = checked_entries(cache, n - 1);
        let m = meta_entries(cache, n);
        let cc = checked_entries(cache, n);
        if m.len() > pm.len() {
            assert forall|i: int, j: int| 0 <= i < j < m.len() implies !(#[trigger] m[i].0 == #[trigger] m[j].0 && m[i].1
                == m[j].1) by {
                if j == pm.len() && m[i].0 == m[j].0 && m[i].1 == m[j].1 {
                    assert(pm[i] == m[i]);
                    assert(has_meta_key(pm, m[j].0, m[j].1));
                }
                if j < pm.len() {
                    assert(pm[i] == m[i] && pm[j] == m[j]);
                }
            }
        }
        if cc.len() > pc.len() {
            assert forall|i: int, j: int| 0 <= i < j < cc.len() implies #[trigger] cc[i].0 != #[trigger] cc[j].0 by {
                if j == pc.len() && cc[i].0 == cc[j].0 {
                    assert(pc[i] == cc[i]);
                    assert(has_checked_key(pc, cc[j].0));
                }
                if j < pc.len() {
                    assert(pc[i] == cc[i] && pc[j] == cc[j]);
                }
            }
        }
    }
}

fn meta_has(meta: &Vec<(String, String, Value)>, id: &str, f: &str) -> (r: bool)
    ensures
        r == has_meta_key(meta_models(meta@), id@, f@),
{
    let ghost mm = meta_models(meta@);
    let mut k: usize = 0;
    while k < meta.len()
        invariant
            k <= meta.len(),
            mm == meta_models(meta@),
            forall|i: int| 0 <= i < k ==> !(mm[i].0 == id@ && mm[i].1 == f@),
        decreases meta.len() - k,
    {
        assert(mm[k as int] == (meta@[k as int].0@, meta@[k as int].1@, meta@[k as int].2@));
        if crate::text::str_eq(meta[k].0.as_str(), id) && crate::text::str_eq(meta[k].1.as_str(), f) {
            assert(mm[k as int].0 == id@ && mm[k as int].1 == f@);
            return true;
        }
        k += 1;
    }
    proof {
        if has_meta_key(mm, id@, f@) {
            let i = choose|i: int| 0 <= i < mm.len() && #[trigger] mm[i].0 == id@ && mm[i].1 == f@;
        }
    }
    false
}

fn checked_has(checked: &Vec<(CheckboxId, Status)>, b: &CheckboxId) -> (r: bool)
    ensures
        r == has_checked_key(checked_models(checked@), (b.note_id@, b.line_idx)),
{
    let ghost cm = checked_models(checked@);
    let mut k: usize = 0;
    while k < checked.len()
        invariant
            k <= checked.len(),
            cm == checked_models(checked@),
            forall|i: int| 0 <= i < k ==> cm[i].0 != (b.note_id@, b.line_idx),
        decreases checked.len() - k,
    {
        assert(cm[k as int] == ((checked@[k as int].0.note_id@, checked@[k as int].0.line_idx), checked@[k as int].1));
        if crate::text::str_eq(checked[k].0.note_id.as_str(), b.note_id.as_str()) && checked[k].0.line_idx == b.line_idx {
            assert(cm[k as int].0 == (b.note_id@, b.line_idx));
            return true;
        }
        k += 1;
    }
    proof {
        if has_checked_key(cm, (b.note_id@, b.line_idx)) {
            let i = choose|i: int| 0 <= i < cm.len() && #[trigger] cm[i].0 == (b.note_id@, b.line_idx);
        }
    }
    false
}

/// Effective values of a workspace evaluation.
pub struct EvalResult {
    /// `effective_meta(note, field)` for each materialized field:
    /// (note ID, field path, value), each (note, field) once
    /// (`meta_keys_distinct`, which `eval_all` ensures).
    pub effective_meta: Vec<(String, String, Value)>,
    /// `effective_checked(checkbox)` for each checkbox, each once
    /// (`checked_keys_distinct`, which `eval_all` ensures).
    pub effective_checked: Vec<(CheckboxId, Status)>,
    pub diagnostics: Vec<ReconcileDiagnostic>,
}

impl EvalResult {
    /// The effective value of a note's field, if it was evaluated.
    pub fn meta(&self, note_id: &str, field: &str) -> (r: Option<&Value>)
        ensures
            r matches Some(v) ==> exists|k: int|
                0 <= k < self.effective_meta.len() && #[trigger] self.effective_meta@[k].0@ == note_id@
                    && self.effective_meta@[k].1@ == field@ && self.effective_meta@[k].2 == *v,
            r is None ==> forall|k: int|
                0 <= k < self.effective_meta.len() ==> !(#[trigger] self.effective_meta@[k].0@ == note_id@
                    && self.effective_meta@[k].1@ == field@),
    {
        let mut k: usize = 0;
        while k < self.effective_meta.len()
            invariant
                k <= self.effective_meta.len(),
                forall|j: int|
                    0 <= j < k ==> !(#[trigger] self.effective_meta@[j].0@ == note_id@ && self.effective_meta@[j].1@
                        == field@),
            decreases self.effective_meta.len() - k,
        {
            let e = &self.effective_meta[k];
            if crate::text::str_eq(e.0.as_str(), note_id) && crate::text::str_eq(e.1.as_str(), field) {
                return Some(&e.2);
            }
            k += 1;
        }
        None
    }
}

fn meta_entry_of(e: &(CallKey, Value)) -> (r: Option<(String, String, Value)>)
    ensures
        match r {
            Some(t) => {
                &&& key_model(e.0).0 == "effective_meta"@
                &&& key_model(e.0).1.len() == 2
                &&& key_model(e.0).1[0] == ValueModel::NoteRef(t.0@)
                &&& key_model(e.0).1[1] == ValueModel::Str(t.1@)
                &&& t.2@ == e.1@
            },
            None => !(key_model(e.0).0 == "effective_meta"@ && key_model(e.0).1.len() == 2 && key_model(e.0).1[0] is NoteRef
                && key_model(e.0).1[1] is Str),
        },
{
    proof {
        crate::reconcile::types::lemma_value_models(e.0.args@);
    }
    if crate::text::str_eq(e.0.name.as_str(), "effective_meta") && e.0.args.len() == 2 {
        if let (Value::NoteRef(id), Value::String(f)) = (&e.0.args[0], &e.0.args[1]) {
            return Some((id.clone(), f.clone(), crate::reconcile::types::value_clone(&e.1)));
        }
    }
    None
}

fn checked_entry_of(e: &(CallKey, Value)) -> (r: Option<(CheckboxId, Status)>)
    ensures
        match r {
            Some(t) => {
                &&& key_model(e.0).0 == "effective_checked"@
                &&& key_model(e.0).1.len() == 1
                &&& key_model(e.0).1[0] == ValueModel::CheckboxRef(t.0.note_id@, t.0.line_idx)
                &&& e.1@ == ValueModel::Status(t.1)
            },
            None => !(key_model(e.0).0 == "effective_checked"@ && key_model(e.0).1.len() == 1 && key_model(e.0).1[0] is CheckboxRef
                && e.1@ is Status),
        },
{
    proof {
        crate::reconcile::types::lemma_value_models(e.0.args@);
    }
    if crate::text::str_eq(e.0.name.as_str(), "effective_checked") && e.0.args.len() == 1 {
        if let (Value::CheckboxRef(cid), Value::Status(s)) = (&e.0.args[0], &e.1) {
            return Some((CheckboxId { note_id: cid.note_id.clone(), line_idx: cid.line_idx }, *s));
        }
    }
    None
}

pub open spec fn meta_models(v: Seq<(String, String, Value)>) -> Seq<(Seq<char>, Seq<char>, ValueModel)> {
    v.map_values(|t: (String, String, Value)| (t.0@, t.1@, t.2@))
}

pub open spec fn checked_models(v: Seq<(CheckboxId, Status)>) -> Seq<((Seq<char>, usize), Status)> {
    v.map_values(|t: (CheckboxId, Status)| ((t.0.note_id@, t.0.line_idx), t.1))
}

fn call_one(
    module: &Module,
    snap: &WorkspaceSnapshot,
    rets: &StringHashMap<Type>,
    st: &mut EvalState,
    name: &str,
    args: Vec<Value>,
) -> (r: Result<Value, EvalError>)
    ensures
        (final(st)@, eres(r)) == ev_invoke(ctx(module, snap, rets), old(st)@, MAX_CALL_DEPTH as nat, name@, vals(args@)),
{
    invoke_function(module, snap, rets, st, MAX_CALL_DEPTH, name, args)
}

/// Evaluates the module over the workspace with the rules' return types
/// known: `effective_checked` for every checkbox, then for every note
/// `materialized_fields` and `effective_meta` of each field it lists.
pub fn eval_all_typed(module: &Module, snapshot: &WorkspaceSnapshot, type_info: &TypeInfo) -> (r: EvalResult)
    ensures
        ({
            let stf = final_state(ctx(module, snapshot, &type_info.rule_return_types));
            &&& r.diagnostics@.map_values(|d: ReconcileDiagnostic| diag_model(d)) == stf.diags
            &&& meta_models(r.effective_meta@) == meta_entries(stf.cache, stf.cache.len() as int)
            &&& checked_models(r.effective_checked@) == checked_entries(stf.cache, stf.cache.len() as int)
            &&& meta_keys_distinct(meta_models(r.effective_meta@))
            &&& checked_keys_distinct(checked_models(r.effective_checked@))
        }),
{
    let rets = &type_info.rule_return_types;
    let ghost c = ctx(module, snapshot, rets);
    let mut st = EvalState { cache: Vec::new(), stack: Vec::new(), diagnostics: Vec::new() };
    proof {
        assert(st@.cache =~= Seq::<(KeyModel, ValueModel)>::empty());
        assert(st@.stack =~= Seq::<KeyModel>::empty());
        assert(st@.diags =~= Seq::<DiagModel>::empty());
    }
    let boxes = snapshot.all_checkbox_ids();
    let ghost bm = crate::reconcile::observe::cids(boxes@);
    let mut k: usize = 0;
    while k < boxes.len()
        invariant
            k <= boxes.len(),
            bm == crate::reconcile::observe::cids(boxes@),
            c == ctx(module, snapshot, rets),
            checked_pass(c, empty_state(), bm, 0) == checked_pass(c, st@, bm, k as int),
        decreases boxes.len() - k,
    {
        let mut args: Vec<Value> = Vec::new();
        args.push(Value::CheckboxRef(CheckboxId { note_id: boxes[k].note_id.clone(), line_idx: boxes[k].line_idx }));
        proof {
            crate::reconcile::types::lemma_value_models(args@);
            assert(vals(args@) =~= seq![ValueModel::CheckboxRef(bm[k as int].0, bm[k as int].1)]);
        }
        let _ = call_one(module, snapshot, rets, &mut st, "effective_checked", args);
        k += 1;
    }
    let ids = snapshot.all_note_ids();
    let ghost idm = crate::reconcile::ast::names(ids@);
    let ghost s1 = st@;
    let mut n: usize = 0;
    while n < ids.len()
        invariant
            n <= ids.len(),
            idm == crate::reconcile::ast::names(ids@),
            c == ctx(module, snapshot, rets),
            notes_pass(c, s1, idm, 0) == notes_pass(c, st@, idm, n as int),
        decreases ids.len() - n,
    {
        let mut args: Vec<Value> = Vec::new();
        args.push(Value::NoteRef(ids[n].clone()));
        proof {
            crate::reconcile::types::lemma_value_models(args@);
            assert(vals(args@) =~= seq![ValueModel::NoteRef(idm[n as int])]);
        }
        let fields = match call_one(module, snapshot, rets, &mut st, "materialized_fields", args) {
            Ok(v) => v,
            Err(_) => {
                let empty: Vec<Value> = Vec::new();
                proof {
                    crate::reconcile::types::lemma_value_models(empty@);
                    assert(vals(empty@) =~= Seq::<ValueModel>::empty());
                }
                Value::List(empty)
            },
        };
        match fields {
            Value::List(fs) => {
                proof {
                    crate::reconcile::types::lemma_value_models(fs@);
                }
                let ghost fm = vals(fs@);
                let ghost s_fields = st@;
                let mut j: usize = 0;
                while j < fs.len()
                    invariant
                        j <= fs.len(),
                        fm == vals(fs@),
                        fm.len() == fs.len(),
                        forall|q: int| 0 <= q < fs.len() ==> #[trigger] fm[q] == fs@[q]@,
                        c == ctx(module, snapshot, rets),
                        fields_pass(c, s_fields, idm[n as int], fm, 0) == fields_pass(c, st@, idm[n as int], fm, j as int),
                        n < ids.len(),
                        idm == crate::reconcile::ast::names(ids@),
                    decreases fs.len() - j,
                {
                    match &fs[j] {
                        Value::String(f) => {
                            let mut args2: Vec<Value> = Vec::new();
                            args2.push(Value::NoteRef(ids[n].clone()));
                            args2.push(Value::String(f.clone()));
                            proof {
                                crate::reconcile::types::lemma_value_models(args2@);
                                assert(vals(args2@) =~= seq![ValueModel::NoteRef(idm[n as int]), ValueModel::Str(f@)]);
                            }
                            let _ = call_one(module, snapshot, rets, &mut st, "effective_meta", args2);
                        },
                        _ => {
                            push_diag(
                                &mut st,
                                ids[n].clone(),
                                "materialized_fields contains non-String item".to_owned(),
                                DiagnosticKind::EvalFallback,
                            );
                        },
                    }
                    j += 1;
                }
            },
            _ => {
                push_diag(
                    &mut st,
                    ids[n].clone(),
                    "materialized_fields returned non-List".to_owned(),
                    DiagnosticKind::EvalFallback,
                );
            },
        }
        n += 1;
    }
    let ghost stf = st@;
    let mut meta: Vec<(String, String, Value)> = Vec::new();
    let mut checked: Vec<(CheckboxId, Status)> = Vec::new();
    let mut q: usize = 0;
    while q < st.cache.len()
        invariant
            q <= st.cache.len(),
            stf == st@,
            meta_models(meta@) == meta_entries(stf.cache, q as int),
            checked_models(checked@) == checked_entries(stf.cache, q as int),
        decreases st.cache.len() - q,
    {
        assert(stf.cache[q as int] == (key_model(st.cache@[q as int].0), st.cache@[q as int].1@));
        match meta_entry_of(&st.cache[q]) {
            Some(t) => {
                if !meta_has(&meta, t.0.as_str(), t.1.as_str()) {
                    let ghost before = meta_models(meta@);
                    let ghost tm3 = (t.0@, t.1@, t.2@);
                    meta.push(t);
                    assert(meta_models(meta@) =~= before.push(tm3));
                }
            },
            None => {},
        }
        match checked_entry_of(&st.cache[q]) {
            Some(t) => {
                if !checked_has(&checked, &t.0) {
                    let ghost before = checked_models(checked@);
                    let ghost tc = ((t.0.note_id@, t.0.line_idx), t.1);
                    checked.push(t);
                    assert(checked_models(checked@) =~= before.push(tc));
                }
            },
            None => {},
        }
        q += 1;
    }
    proof {
        lemma_entries_distinct(stf.cache, stf.cache.len() as int);
    }
    EvalResult { effective_meta: meta, effective_checked: checked, diagnostics: st.diagnostics }
}

/// Type-checks the module, then evaluates it over the workspace.
pub fn eval_all(module: &Module, snapshot: &WorkspaceSnapshot) -> (r: EvalResult)
    requires
        crate::reconcile::typecheck::check_module(module@, crate::reconcile::typecheck::field_kinds(seq![])) is Ok,
    ensures
        ({
            let rets = crate::reconcile::typecheck::check_module(
                module@,
                crate::reconcile::typecheck::field_kinds(seq![]),
            )->Ok_0;
            let stf = final_state(Ctx { m: module@, snap: snapshot@, rets });
            &&& r.diagnostics@.map_values(|d: ReconcileDiagnostic| diag_model(d)) == stf.diags
            &&& meta_models(r.effective_meta@) == meta_entries(stf.cache, stf.cache.len() as int)
            &&& checked_models(r.effective_checked@) == checked_entries(stf.cache, stf.cache.len() as int)
            &&& meta_keys_distinct(meta_models(r.effective_meta@))
            &&& checked_keys_distinct(checked_models(r.effective_checked@))
        }),
{
    match crate::reconcile::typecheck::type_check_module(module) {
        Ok(info) => eval_all_typed(module, snapshot, &info),
        Err(_) => {
            proof {
                assert(false);
            }
            EvalResult { effective_meta: Vec::new(), effective_checked: Vec::new(), diagnostics: Vec::new() }
        },
    }
}


/// The aggregate of checklist statuses: `none` when all are `none`, `done`
/// or `todo` when every other status is that one, `wip` otherwise.
pub fn aggregate_status(statuses: &[Status]) -> (r: Status)
    ensures
        r == aggregate_spec(statuses@),
{
    Status::aggregate(statuses)
}

} // verus!
