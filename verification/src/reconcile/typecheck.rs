//! Static type checker for the Reconcile DSL.
//!
//! Rule return types are found by a fixed-point iteration that starts from
//! a syntactic guess for each rule; rule parameters get types from their
//! names; a call of a user rule is checked by inferring the rule's body
//! with the argument types, unless the rule is already being inferred, in
//! which case its current return type is used.
use vstd::prelude::*;
use crate::config::{MetadataFieldConfig, MetadataFieldKind};
use crate::reconcile::ast::{find_rule, Expr, ExprModel, Module, ModuleModel, RuleModel};
use crate::reconcile::types::{Type, TypeError, Value, ValueModel};
use crate::StringHashMap;

verus! {

/// Return types found for the module's rules.
pub struct TypeInfo {
    pub rule_return_types: StringHashMap<Type>,
}

/// A type error as plain values.
pub enum TypeErrorModel {
    UnknownVariable(Seq<char>),
    UnknownFunction(Seq<char>),
    TypeMismatch(Type, Type),
    IfBranchMismatch(Type, Type),
    WrongArgCount(Seq<char>, usize, usize),
    UnsupportedHigherOrderArg(Seq<char>),
}

impl View for TypeError {
    type V = TypeErrorModel;

    open spec fn view(&self) -> TypeErrorModel {
        match self {
            TypeError::UnknownVariable(n) => TypeErrorModel::UnknownVariable(n@),
            TypeError::UnknownFunction(n) => TypeErrorModel::UnknownFunction(n@),
            TypeError::TypeMismatch { expected, got } => TypeErrorModel::TypeMismatch(*expected, *got),
            TypeError::IfBranchMismatch { then_type, else_type } => TypeErrorModel::IfBranchMismatch(
                *then_type,
                *else_type,
            ),
            TypeError::WrongArgCount { name, expected, got } => TypeErrorModel::WrongArgCount(
                name@,
                *expected,
                *got,
            ),
            TypeError::UnsupportedHigherOrderArg { name } => TypeErrorModel::UnsupportedHigherOrderArg(
                name@,
            ),
        }
    }
}

pub type TRes = Result<Type, TypeErrorModel>;

pub open spec fn list_of(t: Type) -> Type {
    Type::List(Box::new(t))
}

pub open spec fn list_any() -> Type {
    list_of(Type::Any)
}

/// The type of a literal value (a list by its first element).
pub open spec fn type_of_value(v: ValueModel) -> Type
    decreases v,
{
    match v {
        ValueModel::Bool(_) => Type::Bool,
        ValueModel::Int(_) => Type::Int,
        ValueModel::Nil => Type::Nil,
        ValueModel::Status(_) => Type::Status,
        ValueModel::CheckboxWriteback(_) => Type::CheckboxWriteback,
        ValueModel::List(items) => if items.len() == 0 {
            list_any()
        } else {
            list_of(type_of_value(items[0]))
        },
        ValueModel::NoteRef(_) => Type::NoteRef,
        ValueModel::CheckboxRef(_, _) => Type::CheckboxRef,
        ValueModel::Str(_) => Type::String,
    }
}

/// The common type of two types: `Any` yields to the other side, lists
/// unify element-wise, other differing types give `Any`.
pub open spec fn unify(a: Type, b: Type) -> Type
    decreases a,
{
    if a == b {
        a
    } else {
        match (a, b) {
            (Type::Any, o) => o,
            (o, Type::Any) => o,
            (Type::List(x), Type::List(y)) => list_of(unify(*x, *y)),
            _ => Type::Any,
        }
    }
}

/// `actual` is acceptable where `expected` is required.
pub open spec fn ensure(actual: Type, expected: Type) -> Result<(), TypeErrorModel>
    decreases actual,
{
    match (actual, expected) {
        (Type::Any, _) => Ok(()),
        (_, Type::Any) => Ok(()),
        (Type::List(a), Type::List(b)) => ensure(*a, *b),
        _ => if actual == expected {
            Ok(())
        } else {
            Err(TypeErrorModel::TypeMismatch(expected, actual))
        },
    }
}

pub open spec fn arity(name: Seq<char>, got: int, expected: int) -> Result<(), TypeErrorModel> {
    if got == expected {
        Ok(())
    } else {
        Err(TypeErrorModel::WrongArgCount(name, expected as usize, got as usize))
    }
}

pub open spec fn is_status_pred(name: Seq<char>) -> bool {
    name == "done?"@ || name == "todo?"@ || name == "wip?"@ || name == "none?"@
}

pub open spec fn is_comparison(name: Seq<char>) -> bool {
    name == "<"@ || name == ">"@ || name == "<="@ || name == ">="@
}

/// The names the checker treats as builtin functions.
pub open spec fn is_builtin(name: Seq<char>) -> bool {
    ||| name == "empty?"@
    ||| name == "map"@
    ||| name == "all_done"@
    ||| name == "all_done?"@
    ||| name == "aggregate_status"@
    ||| name == "eq?"@
    ||| name == "not"@
    ||| name == "and"@
    ||| name == "or"@
    ||| name == "list"@
    ||| is_status_pred(name)
    ||| name == "observe_checked"@
    ||| name == "observe_meta"@
    ||| name == "targets"@
    ||| name == "children"@
    ||| name == "local_checkboxes"@
    ||| name == "+"@
    ||| name == "-"@
    ||| is_comparison(name)
    ||| name == "backlinks"@
    ||| name == "parent"@
    ||| name == "nil?"@
    ||| name == "owner_note"@
    ||| name == "length"@
    ||| name == "union"@
    ||| name == "contains?"@
    ||| name == "dedup"@
}

/// Every type of `ts[k..]` is acceptable as `Bool`.
pub open spec fn all_bool(ts: Seq<Type>, k: int) -> Result<(), TypeErrorModel>
    decreases ts.len() - k,
{
    if k < 0 || k >= ts.len() {
        Ok(())
    } else {
        match ensure(ts[k], Type::Bool) {
            Ok(()) => all_bool(ts, k + 1),
            Err(e) => Err(e),
        }
    }
}

/// The unification of `Any` with the types of `ts`, left to right.
pub open spec fn unify_all(ts: Seq<Type>) -> Type
    decreases ts.len(),
{
    if ts.len() == 0 {
        Type::Any
    } else {
        unify(unify_all(ts.drop_last()), ts.last())
    }
}

/// The element type of a list type (`Any` for `Any`), or a mismatch error.
pub open spec fn elem_type(t: Type) -> TRes {
    match t {
        Type::List(inner) => Ok(*inner),
        Type::Any => Ok(Type::Any),
        _ => Err(TypeErrorModel::TypeMismatch(list_any(), t)),
    }
}

/// Checks one argument then yields `ok`.
pub open spec fn then_type(r: Result<(), TypeErrorModel>, ok: Type) -> TRes {
    match r {
        Ok(()) => Ok(ok),
        Err(e) => Err(e),
    }
}

/// Arity `n`, the argument types `want`, then `ok`.
pub open spec fn sig(name: Seq<char>, args: Seq<Type>, want: Seq<Type>, ok: Type) -> TRes {
    match arity(name, args.len() as int, want.len() as int) {
        Err(e) => Err(e),
        Ok(()) => if want.len() == 0 {
            Ok(ok)
        } else if want.len() == 1 {
            then_type(ensure(args[0], want[0]), ok)
        } else {
            match ensure(args[0], want[0]) {
                Err(e) => Err(e),
                Ok(()) => then_type(ensure(args[1], want[1]), ok),
            }
        },
    }
}

/// The declared type of a metadata field (`String` when not declared).
pub open spec fn field_type(kinds: Map<Seq<char>, Type>, field: Seq<char>, missing: Type) -> Type {
    if kinds.contains_key(field) {
        kinds[field]
    } else {
        missing
    }
}

/// The result type of a builtin applied to arguments of the given types.
pub open spec fn builtin_type(
    name: Seq<char>,
    args: Seq<Type>,
    arg_exprs: Seq<ExprModel>,
    kinds: Map<Seq<char>, Type>,
) -> TRes {
    if name == "empty?"@ || name == "length"@ {
        match arity(name, args.len() as int, 1) {
            Err(e) => Err(e),
            Ok(()) => match args[0] {
                Type::List(_) => Ok(if name == "length"@ { Type::Int } else { Type::Bool }),
                Type::Any => Ok(if name == "length"@ { Type::Int } else { Type::Bool }),
                other => Err(TypeErrorModel::TypeMismatch(list_any(), other)),
            },
        }
    } else if name == "all_done"@ || name == "all_done?"@ {
        sig(name, args, seq![list_of(Type::Status)], Type::Bool)
    } else if name == "aggregate_status"@ {
        sig(name, args, seq![list_of(Type::Status)], Type::Status)
    } else if name == "eq?"@ {
        match arity(name, args.len() as int, 2) {
            Err(e) => Err(e),
            Ok(()) => then_type(ensure(args[0], args[1]), Type::Bool),
        }
    } else if name == "not"@ {
        sig(name, args, seq![Type::Bool], Type::Bool)
    } else if name == "and"@ || name == "or"@ {
        then_type(all_bool(args, 0), Type::Bool)
    } else if name == "list"@ {
        Ok(list_of(unify_all(args)))
    } else if is_status_pred(name) {
        sig(name, args, seq![Type::Status], Type::Bool)
    } else if name == "observe_checked"@ {
        sig(name, args, seq![Type::CheckboxRef], Type::Status)
    } else if name == "observe_meta"@ {
        match sig(name, args, seq![Type::NoteRef, Type::String], Type::Any) {
            Err(e) => Err(e),
            Ok(_) => match arg_exprs[1] {
                ExprModel::Lit(ValueModel::Str(field)) => Ok(field_type(kinds, field, Type::String)),
                _ => Ok(Type::Any),
            },
        }
    } else if name == "targets"@ || name == "children"@ || name == "parent"@ || name == "owner_note"@ {
        sig(
            name,
            args,
            seq![Type::CheckboxRef],
            if name == "targets"@ {
                list_of(Type::NoteRef)
            } else if name == "children"@ {
                list_of(Type::CheckboxRef)
            } else if name == "parent"@ {
                Type::Any
            } else {
                Type::NoteRef
            },
        )
    } else if name == "local_checkboxes"@ {
        sig(name, args, seq![Type::NoteRef], list_of(Type::CheckboxRef))
    } else if name == "backlinks"@ {
        sig(name, args, seq![Type::NoteRef], list_of(Type::NoteRef))
    } else if name == "+"@ || name == "-"@ {
        sig(name, args, seq![Type::Int, Type::Int], Type::Int)
    } else if is_comparison(name) {
        sig(name, args, seq![Type::Int, Type::Int], Type::Bool)
    } else if name == "nil?"@ {
        then_type(arity(name, args.len() as int, 1), Type::Bool)
    } else if name == "union"@ {
        match arity(name, args.len() as int, 2) {
            Err(e) => Err(e),
            Ok(()) => match elem_type(args[0]) {
                Err(e) => Err(e),
                Ok(t1) => match elem_type(args[1]) {
                    Err(e) => Err(e),
                    Ok(t2) => Ok(list_of(unify(t1, t2))),
                },
            },
        }
    } else if name == "contains?"@ {
        match arity(name, args.len() as int, 2) {
            Err(e) => Err(e),
            Ok(()) => match elem_type(args[0]) {
                Err(e) => Err(e),
                Ok(inner) => then_type(ensure(args[1], inner), Type::Bool),
            },
        }
    } else if name == "dedup"@ {
        match arity(name, args.len() as int, 1) {
            Err(e) => Err(e),
            Ok(()) => match elem_type(args[0]) {
                Err(e) => Err(e),
                Ok(inner) => Ok(list_of(inner)),
            },
        }
    } else {
        Err(TypeErrorModel::UnknownFunction(name))
    }
}


/// The depth budget of inferring rule bodies inside one another: the
/// largest `usize`, so that it never cuts an inference short (rules that
/// are being inferred already take their current return type).
pub const MAX_RULE_NESTING: usize = usize::MAX;

/// The current return type of a rule (`Any` when unknown).
pub open spec fn ret_or_any(rets: Map<Seq<char>, Type>, name: Seq<char>) -> Type {
    if rets.contains_key(name) {
        rets[name]
    } else {
        Type::Any
    }
}

/// Parameters bound to argument types, in order (a later duplicate wins).
pub open spec fn bind(ps: Seq<Seq<char>>, ts: Seq<Type>, k: int) -> Map<Seq<char>, Type>
    decreases k,
{
    if k <= 0 {
        Map::empty()
    } else {
        bind(ps, ts, k - 1).insert(ps[k - 1], ts[k - 1])
    }
}

/// What a function symbol given to `map` / `filter` resolves to: a result
/// type, or the index of a one-parameter rule whose body is to be inferred.
pub enum Callback {
    Done(TRes),
    Rule(int),
}

pub open spec fn callback_type(fname: Seq<char>, item: Type, rules: Seq<RuleModel>) -> Callback {
    if is_status_pred(fname) {
        Callback::Done(then_type(ensure(item, Type::Status), Type::Bool))
    } else if fname == "nil?"@ {
        Callback::Done(Ok(Type::Bool))
    } else if fname == "not"@ {
        Callback::Done(then_type(ensure(item, Type::Bool), Type::Bool))
    } else if fname == "empty?"@ || fname == "all_done"@ || fname == "all_done?"@ {
        Callback::Done(Ok(Type::Bool))
    } else if fname == "aggregate_status"@ {
        Callback::Done(Ok(Type::Status))
    } else if fname == "length"@ {
        Callback::Done(Ok(Type::Int))
    } else if fname == "observe_checked"@ {
        Callback::Done(then_type(ensure(item, Type::CheckboxRef), Type::Status))
    } else if fname == "owner_note"@ {
        Callback::Done(then_type(ensure(item, Type::CheckboxRef), Type::NoteRef))
    } else if fname == "backlinks"@ {
        Callback::Done(then_type(ensure(item, Type::NoteRef), list_of(Type::NoteRef)))
    } else if fname == "targets"@ {
        Callback::Done(then_type(ensure(item, Type::CheckboxRef), list_of(Type::NoteRef)))
    } else if fname == "children"@ || fname == "local_checkboxes"@ {
        Callback::Done(Ok(list_of(Type::CheckboxRef)))
    } else if fname == "dedup"@ {
        Callback::Done(
            Ok(
                list_of(
                    match item {
                        Type::List(inner) => *inner,
                        _ => Type::Any,
                    },
                ),
            ),
        )
    } else if is_builtin(fname) {
        Callback::Done(Err(TypeErrorModel::WrongArgCount(fname, 2, 1)))
    } else {
        match find_rule(rules, fname) {
            Some(i) => if rules[i].params.len() != 1 {
                Callback::Done(Err(TypeErrorModel::WrongArgCount(fname, 1, rules[i].params.len() as usize)))
            } else {
                Callback::Rule(i)
            },
            None => Callback::Done(Err(TypeErrorModel::UnknownFunction(fname))),
        }
    }
}

/// The function symbol of a higher-order form.
pub open spec fn fn_symbol(e: ExprModel, form: Seq<char>) -> Result<Seq<char>, TypeErrorModel> {
    match e {
        ExprModel::Var(n) => Ok(n),
        _ => Err(TypeErrorModel::UnsupportedHigherOrderArg(form)),
    }
}

/// The type of expression `e` under variable types `vars`, while the rules
/// in `vis` are being inferred.
pub open spec fn infer(
    m: ModuleModel,
    kinds: Map<Seq<char>, Type>,
    rets: Map<Seq<char>, Type>,
    vars: Map<Seq<char>, Type>,
    vis: Seq<Seq<char>>,
    depth: nat,
    e: ExprModel,
) -> TRes
    decreases depth, e, 0int,
{
    match e {
        ExprModel::Lit(v) => Ok(type_of_value(v)),
        ExprModel::Var(n) => if vars.contains_key(n) {
            Ok(vars[n])
        } else {
            Err(TypeErrorModel::UnknownVariable(n))
        },
        ExprModel::If(c, t, f) => match infer(m, kinds, rets, vars, vis, depth, *c) {
            Err(err) => Err(err),
            Ok(ct) => match ensure(ct, Type::Bool) {
                Err(err) => Err(err),
                Ok(()) => match infer(m, kinds, rets, vars, vis, depth, *t) {
                    Err(err) => Err(err),
                    Ok(tt) => match infer(m, kinds, rets, vars, vis, depth, *f) {
                        Err(err) => Err(err),
                        Ok(ft) => if tt == ft {
                            Ok(tt)
                        } else if tt == Type::Any || ft == Type::Any {
                            Ok(Type::Any)
                        } else {
                            Err(TypeErrorModel::IfBranchMismatch(tt, ft))
                        },
                    },
                },
            },
        },
        ExprModel::Call(name, args) => if name == "map"@ || name == "filter"@ {
            infer_map_filter(m, kinds, rets, vars, vis, depth, name, args)
        } else if name == "reduce"@ {
            infer_reduce(m, kinds, rets, vars, vis, depth, args)
        } else {
            match infer_args(m, kinds, rets, vars, vis, depth, args, 0) {
                Err(err) => Err(err),
                Ok(ts) => if is_builtin(name) {
                    builtin_type(name, ts, args, kinds)
                } else {
                    match find_rule(m.rules, name) {
                        None => Err(TypeErrorModel::UnknownFunction(name)),
                        Some(i) => match arity(name, ts.len() as int, m.rules[i].params.len() as int) {
                            Err(err) => Err(err),
                            Ok(()) => if vis.contains(name) || depth == 0 {
                                Ok(ret_or_any(rets, name))
                            } else {
                                infer(
                                    m,
                                    kinds,
                                    rets,
                                    bind(m.rules[i].params, ts, ts.len() as int),
                                    vis.push(name),
                                    (depth - 1) as nat,
                                    m.rules[i].body,
                                )
                            },
                        },
                    }
                },
            }
        },
    }
}

/// The types of `args[k..]`, stopping at the first error.
pub open spec fn infer_args(
    m: ModuleModel,
    kinds: Map<Seq<char>, Type>,
    rets: Map<Seq<char>, Type>,
    vars: Map<Seq<char>, Type>,
    vis: Seq<Seq<char>>,
    depth: nat,
    args: Seq<ExprModel>,
    k: int,
) -> Result<Seq<Type>, TypeErrorModel>
    decreases depth, args, args.len() - k,
{
    if k < 0 || k >= args.len() {
        Ok(seq![])
    } else {
        match infer(m, kinds, rets, vars, vis, depth, args[k]) {
            Err(err) => Err(err),
            Ok(t) => match infer_args(m, kinds, rets, vars, vis, depth, args, k + 1) {
                Err(err) => Err(err),
                Ok(rest) => Ok(seq![t] + rest),
            },
        }
    }
}

/// `(map f xs)` is a list of `f`'s result type; `(filter f xs)` keeps the
/// element type and needs `f` to give `Bool`.
pub open spec fn infer_map_filter(
    m: ModuleModel,
    kinds: Map<Seq<char>, Type>,
    rets: Map<Seq<char>, Type>,
    vars: Map<Seq<char>, Type>,
    vis: Seq<Seq<char>>,
    depth: nat,
    form: Seq<char>,
    args: Seq<ExprModel>,
) -> TRes
    decreases depth, args, 0int,
{
    match arity(form, args.len() as int, 2) {
        Err(err) => Err(err),
        Ok(()) => match fn_symbol(args[0], form) {
            Err(err) => Err(err),
            Ok(fname) => match infer(m, kinds, rets, vars, vis, depth, args[1]) {
                Err(err) => Err(err),
                Ok(lt) => match elem_type(lt) {
                    Err(err) => Err(err),
                    Ok(item) => {
                        let ret = match callback_type(fname, item, m.rules) {
                            Callback::Done(r) => r,
                            Callback::Rule(i) => if depth == 0 {
                                Ok(ret_or_any(rets, fname))
                            } else {
                                infer(
                                    m,
                                    kinds,
                                    rets,
                                    Map::empty().insert(m.rules[i].params[0], item),
                                    vis.push(fname),
                                    (depth - 1) as nat,
                                    m.rules[i].body,
                                )
                            },
                        };
                        match ret {
                            Err(err) => Err(err),
                            Ok(rt) => if form == "map"@ {
                                Ok(list_of(rt))
                            } else {
                                then_type(ensure(rt, Type::Bool), list_of(item))
                            },
                        }
                    },
                },
            },
        },
    }
}

/// `(reduce f init xs)` has the type of `init`.
pub open spec fn infer_reduce(
    m: ModuleModel,
    kinds: Map<Seq<char>, Type>,
    rets: Map<Seq<char>, Type>,
    vars: Map<Seq<char>, Type>,
    vis: Seq<Seq<char>>,
    depth: nat,
    args: Seq<ExprModel>,
) -> TRes
    decreases depth, args, 0int,
{
    match arity("reduce"@, args.len() as int, 3) {
        Err(err) => Err(err),
        Ok(()) => match fn_symbol(args[0], "reduce"@) {
            Err(err) => Err(err),
            Ok(fname) => match infer(m, kinds, rets, vars, vis, depth, args[1]) {
                Err(err) => Err(err),
                Ok(init) => match infer(m, kinds, rets, vars, vis, depth, args[2]) {
                    Err(err) => Err(err),
                    Ok(lt) => match elem_type(lt) {
                        Err(err) => Err(err),
                        Ok(item) => if fname == "+"@ || fname == "-"@ {
                            match ensure(init, Type::Int) {
                                Err(err) => Err(err),
                                Ok(()) => then_type(ensure(item, Type::Int), Type::Int),
                            }
                        } else {
                            match find_rule(m.rules, fname) {
                                Some(i) => if m.rules[i].params.len() != 2 {
                                    Err(TypeErrorModel::WrongArgCount(fname, 2, m.rules[i].params.len() as usize))
                                } else {
                                    let ret = if depth == 0 {
                                        Ok(ret_or_any(rets, fname))
                                    } else {
                                        infer(
                                            m,
                                            kinds,
                                            rets,
                                            Map::empty().insert(m.rules[i].params[0], init).insert(
                                                m.rules[i].params[1],
                                                item,
                                            ),
                                            vis.push(fname),
                                            (depth - 1) as nat,
                                            m.rules[i].body,
                                        )
                                    };
                                    match ret {
                                        Err(err) => Err(err),
                                        Ok(rt) => then_type(ensure(rt, init), init),
                                    }
                                },
                                None => if is_builtin(fname) {
                                    Err(TypeErrorModel::WrongArgCount(fname, 2, 1))
                                } else {
                                    Err(TypeErrorModel::UnknownFunction(fname))
                                },
                            }
                        },
                    },
                },
            },
        },
    }
}


// ---------------------------------------------------------------------------
// Module-level checking
// ---------------------------------------------------------------------------

/// `pat` occurs in `s`.
pub open spec fn has_sub(s: Seq<char>, pat: Seq<char>) -> bool {
    exists|i: int| 0 <= i && i + pat.len() <= s.len() && #[trigger] s.subrange(i, i + pat.len()) == pat
}

/// The type a rule parameter gets from its name.
pub open spec fn param_type(rule_name: Seq<char>, param: Seq<char>, index: int) -> Type {
    if param == "field"@ || param == "path"@ {
        Type::String
    } else if has_sub(rule_name, "checked"@) || param == "c"@ || param == "cb"@ || param == "checkbox"@ {
        Type::CheckboxRef
    } else if param.len() > 1 && param.last() == 's' && param[0] == 'c' {
        list_of(Type::CheckboxRef)
    } else if param.len() > 1 && param.last() == 's' && param[0] == 'n' {
        list_of(Type::NoteRef)
    } else if has_sub(rule_name, "meta"@) && index == 1 {
        Type::String
    } else {
        Type::NoteRef
    }
}

/// The parameter types of the first `k` parameters of a rule.
pub open spec fn param_env(r: RuleModel, k: int) -> Map<Seq<char>, Type>
    decreases k,
{
    if k <= 0 {
        Map::empty()
    } else {
        param_env(r, k - 1).insert(r.params[k - 1], param_type(r.name, r.params[k - 1], k - 1))
    }
}

pub open spec fn kind_type(k: MetadataFieldKind) -> Type {
    match k {
        MetadataFieldKind::String => Type::String,
        MetadataFieldKind::Boolean => Type::Bool,
        MetadataFieldKind::ArrayString => list_of(Type::String),
    }
}

/// Declared field types of the first `k` fields.
pub open spec fn declared_kinds(fields: Seq<(Seq<char>, MetadataFieldKind)>, k: int) -> Map<Seq<char>, Type>
    decreases k,
{
    if k <= 0 {
        Map::empty()
    } else {
        declared_kinds(fields, k - 1).insert(fields[k - 1].0, kind_type(fields[k - 1].1))
    }
}

/// Field types: the declared fields, plus `checklist-status: Status` and
/// `relation: String` unless declared.
pub open spec fn field_kinds(fields: Seq<(Seq<char>, MetadataFieldKind)>) -> Map<Seq<char>, Type> {
    let d = declared_kinds(fields, fields.len() as int);
    let d1 = if d.contains_key("checklist-status"@) {
        d
    } else {
        d.insert("checklist-status"@, Type::Status)
    };
    if d1.contains_key("relation"@) {
        d1
    } else {
        d1.insert("relation"@, Type::String)
    }
}

pub open spec fn field_decls(fs: Seq<MetadataFieldConfig>) -> Seq<(Seq<char>, MetadataFieldKind)> {
    fs.map_values(|f: MetadataFieldConfig| (f.path@, f.kind))
}

/// The syntactic first guess at a call's type.
pub open spec fn boot_call(name: Seq<char>, args: Seq<ExprModel>, kinds: Map<Seq<char>, Type>) -> Type {
    if name == "empty?"@ || name == "all_done"@ || name == "all_done?"@ || name == "eq?"@ || name == "not"@
        || name == "and"@ || name == "or"@ {
        Type::Bool
    } else if name == "list"@ {
        list_any()
    } else if is_status_pred(name) || name == "nil?"@ || name == "contains?"@ || is_comparison(name) {
        Type::Bool
    } else if name == "+"@ || name == "-"@ || name == "length"@ {
        Type::Int
    } else if name == "observe_checked"@ || name == "aggregate_status"@ {
        Type::Status
    } else if name == "targets"@ || name == "backlinks"@ {
        list_of(Type::NoteRef)
    } else if name == "children"@ || name == "local_checkboxes"@ {
        list_of(Type::CheckboxRef)
    } else if name == "union"@ || name == "dedup"@ || name == "map"@ || name == "filter"@ {
        list_any()
    } else if name == "owner_note"@ {
        Type::NoteRef
    } else if name == "observe_meta"@ {
        if args.len() > 1 {
            match args[1] {
                ExprModel::Lit(ValueModel::Str(field)) => field_type(kinds, field, Type::Any),
                _ => Type::Any,
            }
        } else {
            Type::Any
        }
    } else {
        Type::Any
    }
}

/// The syntactic first guess at an expression's type.
pub open spec fn boot_expr(e: ExprModel, kinds: Map<Seq<char>, Type>) -> Type
    decreases e,
{
    match e {
        ExprModel::Lit(v) => type_of_value(v),
        ExprModel::If(_, t, f) => unify(boot_expr(*t, kinds), boot_expr(*f, kinds)),
        ExprModel::Call(name, args) => boot_call(name, args, kinds),
        ExprModel::Var(_) => Type::Any,
    }
}

/// First guesses for the first `k` rules.
pub open spec fn boot_rets(rules: Seq<RuleModel>, kinds: Map<Seq<char>, Type>, k: int) -> Map<Seq<char>, Type>
    decreases k,
{
    if k <= 0 {
        Map::empty()
    } else {
        boot_rets(rules, kinds, k - 1).insert(rules[k - 1].name, boot_expr(rules[k - 1].body, kinds))
    }
}

/// The inferred type of a rule's body under its parameter types.
pub open spec fn rule_type(m: ModuleModel, kinds: Map<Seq<char>, Type>, rets: Map<Seq<char>, Type>, k: int) -> TRes {
    let r = m.rules[k];
    infer(m, kinds, rets, param_env(r, r.params.len() as int), seq![r.name], MAX_RULE_NESTING as nat, r.body)
}

/// One refinement round over rules `k..`: each rule's return type becomes
/// its unification with the inferred type; whether anything changed.
pub open spec fn round(m: ModuleModel, kinds: Map<Seq<char>, Type>, rets: Map<Seq<char>, Type>, k: int, changed: bool)
    -> Result<(Map<Seq<char>, Type>, bool), TypeErrorModel>
    decreases m.rules.len() - k,
{
    if k < 0 || k >= m.rules.len() {
        Ok((rets, changed))
    } else {
        match rule_type(m, kinds, rets, k) {
            Err(err) => Err(err),
            Ok(t) => {
                let name = m.rules[k].name;
                let cur = ret_or_any(rets, name);
                let merged = unify(cur, t);
                round(m, kinds, rets.insert(name, merged), k + 1, changed || cur != merged)
            },
        }
    }
}

/// Up to `n` rounds, stopping at the first one that changes nothing.
pub open spec fn rounds(m: ModuleModel, kinds: Map<Seq<char>, Type>, rets: Map<Seq<char>, Type>, n: nat)
    -> Result<Map<Seq<char>, Type>, TypeErrorModel>
    decreases n,
{
    if n == 0 {
        Ok(rets)
    } else {
        match round(m, kinds, rets, 0, false) {
            Err(err) => Err(err),
            Ok((r2, ch)) => if ch {
                rounds(m, kinds, r2, (n - 1) as nat)
            } else {
                Ok(r2)
            },
        }
    }
}

/// The return type an entry-point rule must have.
pub open spec fn required_type(name: Seq<char>) -> Option<Type> {
    if name == "effective_checked"@ {
        Some(Type::Status)
    } else if name == "materialize_checked"@ {
        Some(Type::CheckboxWriteback)
    } else {
        None
    }
}

/// Every rule from `k` on agrees with its return type and requirement.
pub open spec fn final_check(m: ModuleModel, kinds: Map<Seq<char>, Type>, rets: Map<Seq<char>, Type>, k: int)
    -> Result<(), TypeErrorModel>
    decreases m.rules.len() - k,
{
    if k < 0 || k >= m.rules.len() {
        Ok(())
    } else {
        match rule_type(m, kinds, rets, k) {
            Err(err) => Err(err),
            Ok(t) => match ensure(t, ret_or_any(rets, m.rules[k].name)) {
                Err(err) => Err(err),
                Ok(()) => match required_type(m.rules[k].name) {
                    Some(req) => match ensure(t, req) {
                        Err(err) => Err(err),
                        Ok(()) => final_check(m, kinds, rets, k + 1),
                    },
                    None => final_check(m, kinds, rets, k + 1),
                },
            },
        }
    }
}

/// The outcome of checking a module whose metadata fields have `kinds`.
pub open spec fn check_module(m: ModuleModel, kinds: Map<Seq<char>, Type>) -> Result<Map<Seq<char>, Type>, TypeErrorModel> {
    match rounds(m, kinds, boot_rets(m.rules, kinds, m.rules.len() as int), (m.rules.len() + 2) as nat) {
        Err(err) => Err(err),
        Ok(rets) => match final_check(m, kinds, rets, 0) {
            Err(err) => Err(err),
            Ok(()) => Ok(rets),
        },
    }
}


// ---------------------------------------------------------------------------
// Executable checker
// ---------------------------------------------------------------------------

pub open spec fn unit_res(r: Result<(), TypeError>) -> Result<(), TypeErrorModel> {
    match r {
        Ok(()) => Ok(()),
        Err(e) => Err(e@),
    }
}

pub open spec fn type_res(r: Result<Type, TypeError>) -> TRes {
    match r {
        Ok(t) => Ok(t),
        Err(e) => Err(e@),
    }
}

pub open spec fn types_res(r: Result<Vec<Type>, TypeError>) -> Result<Seq<Type>, TypeErrorModel> {
    match r {
        Ok(ts) => Ok(ts@),
        Err(e) => Err(e@),
    }
}

pub(crate) fn type_of_lit(v: &Value) -> (t: Type)
    ensures
        t == type_of_value(v@),
    decreases v,
{
    match v {
        Value::Bool(_) => Type::Bool,
        Value::Int(_) => Type::Int,
        Value::Nil => Type::Nil,
        Value::Status(_) => Type::Status,
        Value::CheckboxWriteback(_) => Type::CheckboxWriteback,
        Value::List(items) => {
            proof {
                crate::reconcile::types::lemma_value_models(items@);
            }
            if items.len() == 0 {
                Type::List(Box::new(Type::Any))
            } else {
                proof {
                    assert(decreases_to!(*v => (*v)->List_0));
                    assert(decreases_to!((*v)->List_0 => (*v)->List_0@));
                    assert(decreases_to!(items@ => items@[0]));
                }
                Type::List(Box::new(type_of_lit(&items[0])))
            }
        },
        Value::NoteRef(_) => Type::NoteRef,
        Value::CheckboxRef(_) => Type::CheckboxRef,
        Value::String(_) => Type::String,
    }
}

fn unify_exec(a: &Type, b: &Type) -> (t: Type)
    ensures
        t == unify(*a, *b),
    decreases a,
{
    if crate::reconcile::types::type_eq(a, b) {
        return crate::reconcile::types::type_clone(a);
    }
    match (a, b) {
        (Type::Any, o) => crate::reconcile::types::type_clone(o),
        (o, Type::Any) => crate::reconcile::types::type_clone(o),
        (Type::List(x), Type::List(y)) => Type::List(Box::new(unify_exec(x, y))),
        _ => Type::Any,
    }
}

fn ensure_exec(actual: &Type, expected: &Type) -> (r: Result<(), TypeError>)
    ensures
        unit_res(r) == ensure(*actual, *expected),
    decreases actual,
{
    match (actual, expected) {
        (Type::Any, _) => Ok(()),
        (_, Type::Any) => Ok(()),
        (Type::List(a), Type::List(b)) => ensure_exec(a, b),
        _ => if crate::reconcile::types::type_eq(actual, expected) {
            Ok(())
        } else {
            Err(
                TypeError::TypeMismatch {
                    expected: crate::reconcile::types::type_clone(expected),
                    got: crate::reconcile::types::type_clone(actual),
                },
            )
        },
    }
}

fn arity_exec(name: &str, got: usize, expected: usize) -> (r: Result<(), TypeError>)
    ensures
        unit_res(r) == arity(name@, got as int, expected as int),
{
    if got == expected {
        Ok(())
    } else {
        Err(TypeError::WrongArgCount { name: name.to_owned(), expected, got })
    }
}

fn is_status_pred_exec(name: &str) -> (r: bool)
    ensures
        r == is_status_pred(name@),
{
    crate::text::str_eq(name, "done?") || crate::text::str_eq(name, "todo?") || crate::text::str_eq(name, "wip?")
        || crate::text::str_eq(name, "none?")
}

fn is_comparison_exec(name: &str) -> (r: bool)
    ensures
        r == is_comparison(name@),
{
    crate::text::str_eq(name, "<") || crate::text::str_eq(name, ">") || crate::text::str_eq(name, "<=")
        || crate::text::str_eq(name, ">=")
}

fn is_builtin_exec(name: &str) -> (r: bool)
    ensures
        r == is_builtin(name@),
{
    let e = |x: &str| -> (b: bool)
        ensures
            b == (name@ == x@),
        { crate::text::str_eq(name, x) };
    e("empty?") || e("map") || e("all_done") || e("all_done?") || e("aggregate_status") || e("eq?") || e("not")
        || e("and") || e("or") || e("list") || is_status_pred_exec(name) || e("observe_checked") || e(
        "observe_meta",
    ) || e("targets") || e("children") || e("local_checkboxes") || e("+") || e("-") || is_comparison_exec(
        name,
    ) || e("backlinks") || e("parent") || e("nil?") || e("owner_note") || e("length") || e("union") || e(
        "contains?",
    ) || e("dedup")
}

fn then_exec(r: Result<(), TypeError>, ok: Type) -> (out: Result<Type, TypeError>)
    ensures
        type_res(out) == then_type(unit_res(r), ok),
{
    match r {
        Ok(()) => Ok(ok),
        Err(e) => Err(e),
    }
}

fn elem_exec(t: &Type) -> (r: Result<Type, TypeError>)
    ensures
        type_res(r) == elem_type(*t),
{
    match t {
        Type::List(inner) => Ok(crate::reconcile::types::type_clone(inner)),
        Type::Any => Ok(Type::Any),
        _ => Err(
            TypeError::TypeMismatch {
                expected: Type::List(Box::new(Type::Any)),
                got: crate::reconcile::types::type_clone(t),
            },
        ),
    }
}

fn sig1(name: &str, args: &Vec<Type>, want: Type, ok: Type) -> (r: Result<Type, TypeError>)
    ensures
        type_res(r) == sig(name@, args@, seq![want], ok),
{
    match arity_exec(name, args.len(), 1) {
        Err(e) => Err(e),
        Ok(()) => then_exec(ensure_exec(&args[0], &want), ok),
    }
}

fn sig2(name: &str, args: &Vec<Type>, w0: Type, w1: Type, ok: Type) -> (r: Result<Type, TypeError>)
    ensures
        type_res(r) == sig(name@, args@, seq![w0, w1], ok),
{
    match arity_exec(name, args.len(), 2) {
        Err(e) => Err(e),
        Ok(()) => match ensure_exec(&args[0], &w0) {
            Err(e) => Err(e),
            Ok(()) => then_exec(ensure_exec(&args[1], &w1), ok),
        },
    }
}

fn field_type_exec(kinds: &StringHashMap<Type>, field: &str, missing: Type) -> (t: Type)
    ensures
        t == field_type(kinds@, field@, missing),
{
    match kinds.get(field) {
        Some(t) => crate::reconcile::types::type_clone(t),
        None => missing,
    }
}

fn all_bool_exec(ts: &Vec<Type>) -> (r: Result<(), TypeError>)
    ensures
        unit_res(r) == all_bool(ts@, 0),
{
    let mut k: usize = 0;
    while k < ts.len()
        invariant
            k <= ts.len(),
            all_bool(ts@, 0) == all_bool(ts@, k as int),
        decreases ts.len() - k,
    {
        match ensure_exec(&ts[k], &Type::Bool) {
            Err(e) => {
                return Err(e);
            },
            Ok(()) => {},
        }
        k += 1;
    }
    Ok(())
}

fn unify_all_exec(ts: &Vec<Type>) -> (t: Type)
    ensures
        t == unify_all(ts@),
{
    let mut acc = Type::Any;
    let mut k: usize = 0;
    while k < ts.len()
        invariant
            k <= ts.len(),
            acc == unify_all(ts@.take(k as int)),
        decreases ts.len() - k,
    {
        assert(ts@.take(k + 1).drop_last() =~= ts@.take(k as int));
        acc = unify_exec(&acc, &ts[k]);
        k += 1;
    }
    assert(ts@.take(ts.len() as int) =~= ts@);
    acc
}

/// The result type of a builtin applied to arguments of the given types.
fn builtin_return_type(name: &str, args: &Vec<Type>, arg_exprs: &Vec<Expr>, kinds: &StringHashMap<Type>) -> (r: Result<
    Type,
    TypeError,
>)
    requires
        args.len() == arg_exprs.len(),
    ensures
        type_res(r) == builtin_type(name@, args@, crate::reconcile::ast::expr_models(arg_exprs@), kinds@),
{
    proof {
        crate::reconcile::ast::lemma_expr_models(arg_exprs@);
    }
    let is = |x: &str| -> (b: bool)
        ensures
            b == (name@ == x@),
        { crate::text::str_eq(name, x) };
    if is("empty?") || is("length") {
        match arity_exec(name, args.len(), 1) {
            Err(e) => Err(e),
            Ok(()) => {
                let ok = if is("length") {
                    Type::Int
                } else {
                    Type::Bool
                };
                match &args[0] {
                    Type::List(_) => Ok(ok),
                    Type::Any => Ok(ok),
                    other => Err(
                        TypeError::TypeMismatch {
                            expected: Type::List(Box::new(Type::Any)),
                            got: crate::reconcile::types::type_clone(other),
                        },
                    ),
                }
            },
        }
    } else if is("all_done") || is("all_done?") {
        sig1(name, args, Type::List(Box::new(Type::Status)), Type::Bool)
    } else if is("aggregate_status") {
        sig1(name, args, Type::List(Box::new(Type::Status)), Type::Status)
    } else if is("eq?") {
        match arity_exec(name, args.len(), 2) {
            Err(e) => Err(e),
            Ok(()) => then_exec(ensure_exec(&args[0], &args[1]), Type::Bool),
        }
    } else if is("not") {
        sig1(name, args, Type::Bool, Type::Bool)
    } else if is("and") || is("or") {
        then_exec(all_bool_exec(args), Type::Bool)
    } else if is("list") {
        Ok(Type::List(Box::new(unify_all_exec(args))))
    } else if is_status_pred_exec(name) {
        sig1(name, args, Type::Status, Type::Bool)
    } else if is("observe_checked") {
        sig1(name, args, Type::CheckboxRef, Type::Status)
    } else if is("observe_meta") {
        match sig2(name, args, Type::NoteRef, Type::String, Type::Any) {
            Err(e) => Err(e),
            Ok(_) => match &arg_exprs[1] {
                Expr::Lit(Value::String(field)) => Ok(field_type_exec(kinds, field.as_str(), Type::String)),
                _ => Ok(Type::Any),
            },
        }
    } else if is("targets") || is("children") || is("parent") || is("owner_note") {
        let ok = if is("targets") {
            Type::List(Box::new(Type::NoteRef))
        } else if is("children") {
            Type::List(Box::new(Type::CheckboxRef))
        } else if is("parent") {
            Type::Any
        } else {
            Type::NoteRef
        };
        sig1(name, args, Type::CheckboxRef, ok)
    } else if is("local_checkboxes") {
        sig1(name, args, Type::NoteRef, Type::List(Box::new(Type::CheckboxRef)))
    } else if is("backlinks") {
        sig1(name, args, Type::NoteRef, Type::List(Box::new(Type::NoteRef)))
    } else if is("+") || is("-") {
        sig2(name, args, Type::Int, Type::Int, Type::Int)
    } else if is_comparison_exec(name) {
        sig2(name, args, Type::Int, Type::Int, Type::Bool)
    } else if is("nil?") {
        then_exec(arity_exec(name, args.len(), 1), Type::Bool)
    } else if is("union") {
        match arity_exec(name, args.len(), 2) {
            Err(e) => Err(e),
            Ok(()) => match elem_exec(&args[0]) {
                Err(e) => Err(e),
                Ok(t1) => match elem_exec(&args[1]) {
                    Err(e) => Err(e),
                    Ok(t2) => Ok(Type::List(Box::new(unify_exec(&t1, &t2)))),
                },
            },
        }
    } else if is("contains?") {
        match arity_exec(name, args.len(), 2) {
            Err(e) => Err(e),
            Ok(()) => match elem_exec(&args[0]) {
                Err(e) => Err(e),
                Ok(inner) => then_exec(ensure_exec(&args[1], &inner), Type::Bool),
            },
        }
    } else if is("dedup") {
        match arity_exec(name, args.len(), 1) {
            Err(e) => Err(e),
            Ok(()) => match elem_exec(&args[0]) {
                Err(e) => Err(e),
                Ok(inner) => Ok(Type::List(Box::new(inner))),
            },
        }
    } else {
        Err(TypeError::UnknownFunction(name.to_owned()))
    }
}


pub open spec fn vis_names(v: Seq<String>) -> Seq<Seq<char>> {
    crate::reconcile::ast::names(v)
}

fn vis_contains(vis: &Vec<String>, name: &str) -> (r: bool)
    ensures
        r == vis_names(vis@).contains(name@),
{
    let mut k: usize = 0;
    while k < vis.len()
        invariant
            k <= vis.len(),
            forall|j: int| 0 <= j < k ==> vis@[j]@ != name@,
        decreases vis.len() - k,
    {
        if crate::text::str_eq(vis[k].as_str(), name) {
            assert(vis_names(vis@)[k as int] == name@);
            return true;
        }
        k += 1;
    }
    assert forall|j: int| 0 <= j < vis_names(vis@).len() implies vis_names(vis@)[j] != name@ by {
        assert(vis_names(vis@)[j] == vis@[j]@);
    }
    false
}

fn vis_with(vis: &Vec<String>, name: &str) -> (v: Vec<String>)
    ensures
        vis_names(v@) == vis_names(vis@).push(name@),
{
    let mut v: Vec<String> = Vec::new();
    let mut k: usize = 0;
    while k < vis.len()
        invariant
            k <= vis.len(),
            vis_names(v@) == vis_names(vis@).take(k as int),
        decreases vis.len() - k,
    {
        let ghost before = vis_names(v@);
        v.push(vis[k].clone());
        assert(vis_names(v@) =~= before.push(vis@[k as int]@));
        assert(vis_names(vis@).take(k + 1) =~= vis_names(vis@).take(k as int).push(vis@[k as int]@));
        k += 1;
    }
    let ghost before = vis_names(v@);
    v.push(name.to_owned());
    assert(vis_names(v@) =~= before.push(name@));
    assert(vis_names(vis@).take(vis.len() as int) =~= vis_names(vis@));
    v
}

fn bind_exec(ps: &Vec<String>, ts: &Vec<Type>) -> (m: StringHashMap<Type>)
    requires
        ps.len() == ts.len(),
    ensures
        m@ == bind(crate::reconcile::ast::names(ps@), ts@, ts.len() as int),
{
    let mut m = StringHashMap::<Type>::new();
    let mut k: usize = 0;
    while k < ps.len()
        invariant
            k <= ps.len(),
            ps.len() == ts.len(),
            m@ == bind(crate::reconcile::ast::names(ps@), ts@, k as int),
        decreases ps.len() - k,
    {
        m.insert(ps[k].clone(), crate::reconcile::types::type_clone(&ts[k]));
        k += 1;
    }
    m
}

pub enum CallbackExec {
    Done(Result<Type, TypeError>),
    Rule(usize),
}

fn callback_exec(fname: &str, item: &Type, module: &Module) -> (r: CallbackExec)
    ensures
        match r {
            CallbackExec::Done(x) => callback_type(fname@, *item, module@.rules) == Callback::Done(type_res(x)),
            CallbackExec::Rule(i) => callback_type(fname@, *item, module@.rules) == Callback::Rule(i as int)
                && i < module.rules.len(),
        },
{
    let is = |x: &str| -> (b: bool)
        ensures
            b == (fname@ == x@),
        { crate::text::str_eq(fname, x) };
    if is_status_pred_exec(fname) {
        CallbackExec::Done(then_exec(ensure_exec(item, &Type::Status), Type::Bool))
    } else if is("nil?") {
        CallbackExec::Done(Ok(Type::Bool))
    } else if is("not") {
        CallbackExec::Done(then_exec(ensure_exec(item, &Type::Bool), Type::Bool))
    } else if is("empty?") || is("all_done") || is("all_done?") {
        CallbackExec::Done(Ok(Type::Bool))
    } else if is("aggregate_status") {
        CallbackExec::Done(Ok(Type::Status))
    } else if is("length") {
        CallbackExec::Done(Ok(Type::Int))
    } else if is("observe_checked") {
        CallbackExec::Done(then_exec(ensure_exec(item, &Type::CheckboxRef), Type::Status))
    } else if is("owner_note") {
        CallbackExec::Done(then_exec(ensure_exec(item, &Type::CheckboxRef), Type::NoteRef))
    } else if is("backlinks") {
        CallbackExec::Done(then_exec(ensure_exec(item, &Type::NoteRef), Type::List(Box::new(Type::NoteRef))))
    } else if is("targets") {
        CallbackExec::Done(then_exec(ensure_exec(item, &Type::CheckboxRef), Type::List(Box::new(Type::NoteRef))))
    } else if is("children") || is("local_checkboxes") {
        CallbackExec::Done(Ok(Type::List(Box::new(Type::CheckboxRef))))
    } else if is("dedup") {
        let inner = match item {
            Type::List(inner) => crate::reconcile::types::type_clone(inner),
            _ => Type::Any,
        };
        CallbackExec::Done(Ok(Type::List(Box::new(inner))))
    } else if is_builtin_exec(fname) {
        CallbackExec::Done(Err(TypeError::WrongArgCount { name: fname.to_owned(), expected: 2, got: 1 }))
    } else {
        match crate::reconcile::ast::rule_index(module, fname) {
            Some(i) => {
                assert(module@.rules[i as int] == module.rules@[i as int]@);
                if module.rules[i].params.len() != 1 {
                    CallbackExec::Done(
                        Err(
                            TypeError::WrongArgCount {
                                name: fname.to_owned(),
                                expected: 1,
                                got: module.rules[i].params.len(),
                            },
                        ),
                    )
                } else {
                    CallbackExec::Rule(i)
                }
            },
            None => CallbackExec::Done(Err(TypeError::UnknownFunction(fname.to_owned()))),
        }
    }
}

fn fn_symbol_exec(e: &Expr, form: &str) -> (r: Result<String, TypeError>)
    ensures
        match r {
            Ok(n) => fn_symbol(e@, form@) == Ok::<Seq<char>, TypeErrorModel>(n@),
            Err(x) => fn_symbol(e@, form@) == Err::<Seq<char>, TypeErrorModel>(x@),
        },
{
    match e {
        Expr::Var(n) => Ok(n.clone()),
        _ => Err(TypeError::UnsupportedHigherOrderArg { name: form.to_owned() }),
    }
}

fn ret_or_any_exec(rets: &StringHashMap<Type>, name: &str) -> (t: Type)
    ensures
        t == ret_or_any(rets@, name@),
{
    match rets.get(name) {
        Some(t) => crate::reconcile::types::type_clone(t),
        None => Type::Any,
    }
}

/// The type of an expression (see `infer`).
fn infer_type(
    module: &Module,
    kinds: &StringHashMap<Type>,
    rets: &StringHashMap<Type>,
    vars: &StringHashMap<Type>,
    vis: &Vec<String>,
    depth: usize,
    e: &Expr,
) -> (r: Result<Type, TypeError>)
    ensures
        type_res(r) == infer(module@, kinds@, rets@, vars@, vis_names(vis@), depth as nat, e@),
    decreases depth, e, 0int,
{
    match e {
        Expr::Lit(v) => Ok(type_of_lit(v)),
        Expr::Var(n) => match vars.get(n.as_str()) {
            Some(t) => Ok(crate::reconcile::types::type_clone(t)),
            None => Err(TypeError::UnknownVariable(n.clone())),
        },
        Expr::If { cond, then, else_ } => {
            let ct = match infer_type(module, kinds, rets, vars, vis, depth, cond) {
                Ok(t) => t,
                Err(x) => return Err(x),
            };
            match ensure_exec(&ct, &Type::Bool) {
                Ok(()) => {},
                Err(x) => return Err(x),
            }
            let tt = match infer_type(module, kinds, rets, vars, vis, depth, then) {
                Ok(t) => t,
                Err(x) => return Err(x),
            };
            let ft = match infer_type(module, kinds, rets, vars, vis, depth, else_) {
                Ok(t) => t,
                Err(x) => return Err(x),
            };
            if crate::reconcile::types::type_eq(&tt, &ft) {
                Ok(tt)
            } else if crate::reconcile::types::type_eq(&tt, &Type::Any) || crate::reconcile::types::type_eq(
                &ft,
                &Type::Any,
            ) {
                Ok(Type::Any)
            } else {
                Err(TypeError::IfBranchMismatch { then_type: tt, else_type: ft })
            }
        },
        Expr::Call { name, args } => {
            proof {
                assert(decreases_to!(*e => (*e)->args));
            }
            if crate::text::str_eq(name.as_str(), "map") || crate::text::str_eq(name.as_str(), "filter") {
                return infer_map_filter_type(module, kinds, rets, vars, vis, depth, name.as_str(), args);
            }
            if crate::text::str_eq(name.as_str(), "reduce") {
                return infer_reduce_type(module, kinds, rets, vars, vis, depth, args);
            }
            let ts = match infer_arg_types(module, kinds, rets, vars, vis, depth, args) {
                Ok(ts) => ts,
                Err(x) => return Err(x),
            };
            proof {
                crate::reconcile::ast::lemma_expr_models(args@);
            }
            if is_builtin_exec(name.as_str()) {
                return builtin_return_type(name.as_str(), &ts, args, kinds);
            }
            let i = match crate::reconcile::ast::rule_index(module, name.as_str()) {
                Some(i) => i,
                None => return Err(TypeError::UnknownFunction(name.clone())),
            };
            assert(module@.rules[i as int] == module.rules@[i as int]@);
            let rule = &module.rules[i];
            match arity_exec(name.as_str(), ts.len(), rule.params.len()) {
                Ok(()) => {},
                Err(x) => return Err(x),
            }
            if vis_contains(vis, name.as_str()) || depth == 0 {
                return Ok(ret_or_any_exec(rets, name.as_str()));
            }
            let child_vars = bind_exec(&rule.params, &ts);
            let child_vis = vis_with(vis, name.as_str());
            infer_type(module, kinds, rets, &child_vars, &child_vis, depth - 1, &rule.body)
        },
    }
}

pub open spec fn cons_res(ts: Seq<Type>, r: Result<Seq<Type>, TypeErrorModel>) -> Result<Seq<Type>, TypeErrorModel> {
    match r {
        Ok(rest) => Ok(ts + rest),
        Err(e) => Err(e),
    }
}

fn infer_arg_types(
    module: &Module,
    kinds: &StringHashMap<Type>,
    rets: &StringHashMap<Type>,
    vars: &StringHashMap<Type>,
    vis: &Vec<String>,
    depth: usize,
    args: &Vec<Expr>,
) -> (r: Result<Vec<Type>, TypeError>)
    ensures
        types_res(r) == infer_args(
            module@,
            kinds@,
            rets@,
            vars@,
            vis_names(vis@),
            depth as nat,
            crate::reconcile::ast::expr_models(args@),
            0,
        ),
        r matches Ok(ts) ==> ts.len() == args.len(),
    decreases depth, args, 0int,
{
    proof {
        crate::reconcile::ast::lemma_expr_models(args@);
    }
    let ghost am = crate::reconcile::ast::expr_models(args@);
    let mut out: Vec<Type> = Vec::new();
    let mut k: usize = 0;
    while k < args.len()
        invariant
            k <= args.len(),
            out.len() == k,
            am == crate::reconcile::ast::expr_models(args@),
            am.len() == args.len(),
            forall|j: int| 0 <= j < args.len() ==> #[trigger] am[j] == args@[j]@,
            infer_args(module@, kinds@, rets@, vars@, vis_names(vis@), depth as nat, am, 0) == cons_res(
                out@,
                infer_args(module@, kinds@, rets@, vars@, vis_names(vis@), depth as nat, am, k as int),
            ),
        decreases args.len() - k,
    {
        proof {
            assert(decreases_to!(args => args@));
            assert(decreases_to!(args@ => args@[k as int]));
        }
        let t = match infer_type(module, kinds, rets, vars, vis, depth, &args[k]) {
            Ok(t) => t,
            Err(x) => return Err(x),
        };
        let ghost before = out@;
        out.push(t);
        proof {
            assert(forall|r: Seq<Type>| (before + (seq![t] + r)) =~= (before.push(t) + r));
        }
        k += 1;
    }
    assert(out@ + seq![] =~= out@);
    Ok(out)
}

fn infer_map_filter_type(
    module: &Module,
    kinds: &StringHashMap<Type>,
    rets: &StringHashMap<Type>,
    vars: &StringHashMap<Type>,
    vis: &Vec<String>,
    depth: usize,
    form: &str,
    args: &Vec<Expr>,
) -> (r: Result<Type, TypeError>)
    ensures
        type_res(r) == infer_map_filter(
            module@,
            kinds@,
            rets@,
            vars@,
            vis_names(vis@),
            depth as nat,
            form@,
            crate::reconcile::ast::expr_models(args@),
        ),
    decreases depth, args, 0int,
{
    proof {
        crate::reconcile::ast::lemma_expr_models(args@);
    }
    match arity_exec(form, args.len(), 2) {
        Ok(()) => {},
        Err(x) => return Err(x),
    }
    let fname = match fn_symbol_exec(&args[0], form) {
        Ok(n) => n,
        Err(x) => return Err(x),
    };
    proof {
        assert(decreases_to!(args => args@));
        assert(decreases_to!(args@ => args@[1]));
    }
    let lt = match infer_type(module, kinds, rets, vars, vis, depth, &args[1]) {
        Ok(t) => t,
        Err(x) => return Err(x),
    };
    let item = match elem_exec(&lt) {
        Ok(t) => t,
        Err(x) => return Err(x),
    };
    let ret = match callback_exec(fname.as_str(), &item, module) {
        CallbackExec::Done(x) => x,
        CallbackExec::Rule(i) => {
            assert(module@.rules[i as int] == module.rules@[i as int]@);
            if depth == 0 {
                Ok(ret_or_any_exec(rets, fname.as_str()))
            } else {
                let rule = &module.rules[i];
                let mut child_vars = StringHashMap::<Type>::new();
                child_vars.insert(rule.params[0].clone(), crate::reconcile::types::type_clone(&item));
                let child_vis = vis_with(vis, fname.as_str());
                infer_type(module, kinds, rets, &child_vars, &child_vis, depth - 1, &rule.body)
            }
        },
    };
    let rt = match ret {
        Ok(t) => t,
        Err(x) => return Err(x),
    };
    if crate::text::str_eq(form, "map") {
        Ok(Type::List(Box::new(rt)))
    } else {
        then_exec(ensure_exec(&rt, &Type::Bool), Type::List(Box::new(item)))
    }
}

fn infer_reduce_type(
    module: &Module,
    kinds: &StringHashMap<Type>,
    rets: &StringHashMap<Type>,
    vars: &StringHashMap<Type>,
    vis: &Vec<String>,
    depth: usize,
    args: &Vec<Expr>,
) -> (r: Result<Type, TypeError>)
    ensures
        type_res(r) == infer_reduce(
            module@,
            kinds@,
            rets@,
            vars@,
            vis_names(vis@),
            depth as nat,
            crate::reconcile::ast::expr_models(args@),
        ),
    decreases depth, args, 0int,
{
    proof {
        crate::reconcile::ast::lemma_expr_models(args@);
    }
    match arity_exec("reduce", args.len(), 3) {
        Ok(()) => {},
        Err(x) => return Err(x),
    }
    let fname = match fn_symbol_exec(&args[0], "reduce") {
        Ok(n) => n,
        Err(x) => return Err(x),
    };
    proof {
        assert(decreases_to!(args => args@));
        assert(decreases_to!(args@ => args@[1]));
        assert(decreases_to!(args@ => args@[2]));
    }
    let init = match infer_type(module, kinds, rets, vars, vis, depth, &args[1]) {
        Ok(t) => t,
        Err(x) => return Err(x),
    };
    let lt = match infer_type(module, kinds, rets, vars, vis, depth, &args[2]) {
        Ok(t) => t,
        Err(x) => return Err(x),
    };
    let item = match elem_exec(&lt) {
        Ok(t) => t,
        Err(x) => return Err(x),
    };
    if crate::text::str_eq(fname.as_str(), "+") || crate::text::str_eq(fname.as_str(), "-") {
        return match ensure_exec(&init, &Type::Int) {
            Err(x) => Err(x),
            Ok(()) => then_exec(ensure_exec(&item, &Type::Int), Type::Int),
        };
    }
    match crate::reconcile::ast::rule_index(module, fname.as_str()) {
        Some(i) => {
            assert(module@.rules[i as int] == module.rules@[i as int]@);
            let rule = &module.rules[i];
            if rule.params.len() != 2 {
                return Err(TypeError::WrongArgCount { name: fname, expected: 2, got: rule.params.len() });
            }
            let ret = if depth == 0 {
                Ok(ret_or_any_exec(rets, fname.as_str()))
            } else {
                let mut child_vars = StringHashMap::<Type>::new();
                child_vars.insert(rule.params[0].clone(), crate::reconcile::types::type_clone(&init));
                child_vars.insert(rule.params[1].clone(), crate::reconcile::types::type_clone(&item));
                let child_vis = vis_with(vis, fname.as_str());
                infer_type(module, kinds, rets, &child_vars, &child_vis, depth - 1, &rule.body)
            };
            match ret {
                Err(x) => Err(x),
                Ok(rt) => then_exec(ensure_exec(&rt, &init), init),
            }
        },
        None => if is_builtin_exec(fname.as_str()) {
            Err(TypeError::WrongArgCount { name: fname, expected: 2, got: 1 })
        } else {
            Err(TypeError::UnknownFunction(fname))
        },
    }
}


fn has_sub_exec(s: &str, pat: &str) -> (r: bool)
    ensures
        r == has_sub(s@, pat@),
{
    let sv = chars_of_str(s);
    let pv = chars_of_str(pat);
    if pv.len() > sv.len() {
        return false;
    }
    let mut i: usize = 0;
    while i <= sv.len() - pv.len()
        invariant
            sv@ == s@,
            pv@ == pat@,
            pv.len() <= sv.len(),
            i <= sv.len() - pv.len() + 1,
            forall|j: int| 0 <= j < i ==> #[trigger] sv@.subrange(j, j + pv.len()) != pv@,
        decreases sv.len() - i,
    {
        let mut k: usize = 0;
        let mut same = true;
        while k < pv.len()
            invariant
                k <= pv.len(),
                i + pv.len() <= sv.len(),
                same == (forall|q: int| 0 <= q < k ==> sv@[i + q] == #[trigger] pv@[q]),
            decreases pv.len() - k,
        {
            if sv[i + k] != pv[k] {
                same = false;
            }
            k += 1;
        }
        if same {
            assert(sv@.subrange(i as int, i + pv.len()) =~= pv@);
            return true;
        }
        proof {
            if sv@.subrange(i as int, i + pv.len()) == pv@ {
                assert forall|q: int| 0 <= q < pv.len() implies sv@[i + q] == pv@[q] by {
                    assert(sv@.subrange(i as int, i + pv.len())[q] == sv@[i + q]);
                }
            }
        }
        i += 1;
    }
    false
}

fn chars_of_str(s: &str) -> (v: Vec<char>)
    ensures
        v@ == s@,
{
    crate::text::chars_of(s)
}

fn param_type_exec(rule_name: &str, param: &str, index: usize) -> (t: Type)
    ensures
        t == param_type(rule_name@, param@, index as int),
{
    let is = |x: &str| -> (b: bool)
        ensures
            b == (param@ == x@),
        { crate::text::str_eq(param, x) };
    if is("field") || is("path") {
        return Type::String;
    }
    if has_sub_exec(rule_name, "checked") || is("c") || is("cb") || is("checkbox") {
        return Type::CheckboxRef;
    }
    let pv = chars_of_str(param);
    if pv.len() > 1 && pv[pv.len() - 1] == 's' {
        if pv[0] == 'c' {
            return Type::List(Box::new(Type::CheckboxRef));
        }
        if pv[0] == 'n' {
            return Type::List(Box::new(Type::NoteRef));
        }
    }
    if has_sub_exec(rule_name, "meta") && index == 1 {
        return Type::String;
    }
    Type::NoteRef
}

fn param_env_exec(rule: &crate::reconcile::ast::Rule) -> (m: StringHashMap<Type>)
    ensures
        m@ == param_env(rule@, rule.params.len() as int),
{
    let mut m = StringHashMap::<Type>::new();
    let mut k: usize = 0;
    while k < rule.params.len()
        invariant
            k <= rule.params.len(),
            m@ == param_env(rule@, k as int),
        decreases rule.params.len() - k,
    {
        assert(rule@.params[k as int] == rule.params@[k as int]@);
        let t = param_type_exec(rule.name.as_str(), rule.params[k].as_str(), k);
        m.insert(rule.params[k].clone(), t);
        k += 1;
    }
    m
}

fn kind_type_exec(k: MetadataFieldKind) -> (t: Type)
    ensures
        t == kind_type(k),
{
    match k {
        MetadataFieldKind::String => Type::String,
        MetadataFieldKind::Boolean => Type::Bool,
        MetadataFieldKind::ArrayString => Type::List(Box::new(Type::String)),
    }
}

fn field_kinds_exec(fields: &[MetadataFieldConfig]) -> (m: StringHashMap<Type>)
    ensures
        m@ == field_kinds(field_decls(fields@)),
{
    let ghost fd = field_decls(fields@);
    let mut m = StringHashMap::<Type>::new();
    let mut k: usize = 0;
    while k < fields.len()
        invariant
            k <= fields.len(),
            fd == field_decls(fields@),
            fd.len() == fields.len(),
            m@ == declared_kinds(fd, k as int),
        decreases fields.len() - k,
    {
        assert(fd[k as int] == (fields@[k as int].path@, fields@[k as int].kind));
        m.insert(fields[k].path.clone(), kind_type_exec(fields[k].kind));
        k += 1;
    }
    if !m.contains_key("checklist-status") {
        m.insert("checklist-status".to_owned(), Type::Status);
    }
    if !m.contains_key("relation") {
        m.insert("relation".to_owned(), Type::String);
    }
    m
}

fn boot_call_exec(name: &str, args: &Vec<Expr>, kinds: &StringHashMap<Type>) -> (t: Type)
    ensures
        t == boot_call(name@, crate::reconcile::ast::expr_models(args@), kinds@),
{
    proof {
        crate::reconcile::ast::lemma_expr_models(args@);
    }
    let is = |x: &str| -> (b: bool)
        ensures
            b == (name@ == x@),
        { crate::text::str_eq(name, x) };
    if is("empty?") || is("all_done") || is("all_done?") || is("eq?") || is("not") || is("and") || is("or") {
        Type::Bool
    } else if is("list") {
        Type::List(Box::new(Type::Any))
    } else if is_status_pred_exec(name) || is("nil?") || is("contains?") || is_comparison_exec(name) {
        Type::Bool
    } else if is("+") || is("-") || is("length") {
        Type::Int
    } else if is("observe_checked") || is("aggregate_status") {
        Type::Status
    } else if is("targets") || is("backlinks") {
        Type::List(Box::new(Type::NoteRef))
    } else if is("children") || is("local_checkboxes") {
        Type::List(Box::new(Type::CheckboxRef))
    } else if is("union") || is("dedup") || is("map") || is("filter") {
        Type::List(Box::new(Type::Any))
    } else if is("owner_note") {
        Type::NoteRef
    } else if is("observe_meta") {
        if args.len() > 1 {
            match &args[1] {
                Expr::Lit(Value::String(field)) => field_type_exec(kinds, field.as_str(), Type::Any),
                _ => Type::Any,
            }
        } else {
            Type::Any
        }
    } else {
        Type::Any
    }
}

fn boot_expr_exec(e: &Expr, kinds: &StringHashMap<Type>) -> (t: Type)
    ensures
        t == boot_expr(e@, kinds@),
    decreases e,
{
    match e {
        Expr::Lit(v) => type_of_lit(v),
        Expr::If { cond: _, then, else_ } => {
            let a = boot_expr_exec(then, kinds);
            let b = boot_expr_exec(else_, kinds);
            unify_exec(&a, &b)
        },
        Expr::Call { name, args } => boot_call_exec(name.as_str(), args, kinds),
        Expr::Var(_) => Type::Any,
    }
}

fn rule_type_exec(module: &Module, kinds: &StringHashMap<Type>, rets: &StringHashMap<Type>, k: usize) -> (r: Result<
    Type,
    TypeError,
>)
    requires
        k < module.rules.len(),
    ensures
        type_res(r) == rule_type(module@, kinds@, rets@, k as int),
{
    let rule = &module.rules[k];
    assert(module@.rules[k as int] == rule@);
    let vars = param_env_exec(rule);
    let mut vis: Vec<String> = Vec::new();
    vis.push(rule.name.clone());
    assert(vis_names(vis@) =~= seq![rule.name@]);
    infer_type(module, kinds, rets, &vars, &vis, MAX_RULE_NESTING, &rule.body)
}

/// Type-checks a module whose config declares `metadata_fields`.
///
/// On success the result holds each rule's return type; the error is the
/// first one met, rule by rule in source order.
pub fn type_check_module_with_metadata(module: &Module, metadata_fields: &[MetadataFieldConfig]) -> (r: Result<
    TypeInfo,
    TypeError,
>)
    ensures
        r matches Ok(info) ==> check_module(module@, field_kinds(field_decls(metadata_fields@))) == Ok::<
            Map<Seq<char>, Type>,
            TypeErrorModel,
        >(info.rule_return_types@),
        r matches Err(e) ==> check_module(module@, field_kinds(field_decls(metadata_fields@))) == Err::<
            Map<Seq<char>, Type>,
            TypeErrorModel,
        >(e@),
{
    let kinds = field_kinds_exec(metadata_fields);
    let ghost m = module@;
    let n = module.rules.len();
    let mut rets = StringHashMap::<Type>::new();
    let mut k: usize = 0;
    while k < n
        invariant
            k <= n,
            n == module.rules.len(),
            m == module@,
            m.rules.len() == n,
            rets@ == boot_rets(m.rules, kinds@, k as int),
        decreases n - k,
    {
        assert(m.rules[k as int] == module.rules@[k as int]@);
        let t = boot_expr_exec(&module.rules[k].body, &kinds);
        rets.insert(module.rules[k].name.clone(), t);
        k += 1;
    }
    let ghost boot = rets@;
    let total: u128 = n as u128 + 2;
    let mut round_no: u128 = 0;
    loop
        invariant_except_break
            round_no <= total,
            rounds(m, kinds@, boot, total as nat) == rounds(m, kinds@, rets@, (total - round_no) as nat),
        invariant
            n == module.rules.len(),
            m == module@,
            m.rules.len() == n,
            total == n + 2,
            kinds@ == field_kinds(field_decls(metadata_fields@)),
            boot == boot_rets(m.rules, kinds@, n as int),
        ensures
            rounds(m, kinds@, boot, total as nat) == Ok::<Map<Seq<char>, Type>, TypeErrorModel>(rets@),
        decreases total - round_no,
    {
        if round_no >= total {
            break;
        }
        let mut changed = false;
        let mut j: usize = 0;
        let ghost start = rets@;
        while j < n
            invariant
                j <= n,
                n == module.rules.len(),
                m == module@,
                m.rules.len() == n,
                round(m, kinds@, start, 0, false) == round(m, kinds@, rets@, j as int, changed),
                kinds@ == field_kinds(field_decls(metadata_fields@)),
                boot == boot_rets(m.rules, kinds@, n as int),
                round_no < total,
                total == n + 2,
                rounds(m, kinds@, boot, total as nat) == rounds(m, kinds@, start, (total - round_no) as nat),
            decreases n - j,
        {
            assert(m.rules[j as int] == module.rules@[j as int]@);
            let t = match rule_type_exec(module, &kinds, &rets, j) {
                Ok(t) => t,
                Err(x) => return Err(x),
            };
            let cur = ret_or_any_exec(&rets, module.rules[j].name.as_str());
            let merged = unify_exec(&cur, &t);
            if !crate::reconcile::types::type_eq(&cur, &merged) {
                changed = true;
            }
            rets.insert(module.rules[j].name.clone(), merged);
            j += 1;
        }
        round_no += 1;
        if !changed {
            break;
        }
    }
    let mut j: usize = 0;
    let ghost fin = rets@;
    while j < n
        invariant
            j <= n,
            n == module.rules.len(),
            m == module@,
            m.rules.len() == n,
            rets@ == fin,
            final_check(m, kinds@, fin, 0) == final_check(m, kinds@, fin, j as int),
            kinds@ == field_kinds(field_decls(metadata_fields@)),
            rounds(m, kinds@, boot_rets(m.rules, kinds@, n as int), (n + 2) as nat) == Ok::<Map<Seq<char>, Type>, TypeErrorModel>(fin),
        decreases n - j,
    {
        assert(m.rules[j as int] == module.rules@[j as int]@);
        let t = match rule_type_exec(module, &kinds, &rets, j) {
            Ok(t) => t,
            Err(x) => return Err(x),
        };
        let expected = ret_or_any_exec(&rets, module.rules[j].name.as_str());
        match ensure_exec(&t, &expected) {
            Ok(()) => {},
            Err(x) => return Err(x),
        }
        let name = module.rules[j].name.as_str();
        if crate::text::str_eq(name, "effective_checked") {
            match ensure_exec(&t, &Type::Status) {
                Ok(()) => {},
                Err(x) => return Err(x),
            }
        } else if crate::text::str_eq(name, "materialize_checked") {
            match ensure_exec(&t, &Type::CheckboxWriteback) {
                Ok(()) => {},
                Err(x) => return Err(x),
            }
        }
        j += 1;
    }
    Ok(TypeInfo { rule_return_types: rets })
}

/// Type-checks a module with no config-declared metadata fields.
pub fn type_check_module(module: &Module) -> (r: Result<TypeInfo, TypeError>)
    ensures
        r matches Ok(info) ==> check_module(module@, field_kinds(seq![])) == Ok::<Map<Seq<char>, Type>, TypeErrorModel>(
            info.rule_return_types@,
        ),
        r matches Err(e) ==> check_module(module@, field_kinds(seq![])) == Err::<Map<Seq<char>, Type>, TypeErrorModel>(
            e@,
        ),
{
    let fields: Vec<MetadataFieldConfig> = Vec::new();
    assert(field_decls(fields@) =~= seq![]);
    type_check_module_with_metadata(module, fields.as_slice())
}

} // verus!
