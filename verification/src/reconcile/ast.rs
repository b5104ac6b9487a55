//! Syntax tree of the Reconcile DSL: a module of named rules plus a policy
//! block, each rule body an expression.
use vstd::prelude::*;
use crate::reconcile::types::{Status, Value, ValueModel};

verus! {

/// What the evaluator does when a rule call re-enters itself.
#[derive(Debug, Clone, Copy, PartialEq, Eq, Structural)]
pub enum CyclePolicy {
    /// Record a `Cycle` diagnostic, then use the fallback value.
    Error,
    /// Use the fallback value silently.
    Fallback,
}

/// The `(policy ...)` block.
#[derive(Debug, Clone, Copy, PartialEq, Eq, Structural)]
pub struct Policy {
    pub cycle: CyclePolicy,
    /// Status used when an observation is missing.
    pub unknown_status: Status,
}

/// The policy in force when a module declares none.
pub open spec fn default_policy() -> Policy {
    Policy { cycle: CyclePolicy::Error, unknown_status: Status::Todo }
}

/// A DSL expression.
#[derive(Debug)]
pub enum Expr {
    /// A literal value.
    Lit(Value),
    /// A parameter or a function symbol.
    Var(String),
    /// `(if cond then else)`.
    If { cond: Box<Expr>, then: Box<Expr>, else_: Box<Expr> },
    /// `(name arg...)`: a builtin or a rule call.
    Call { name: String, args: Vec<Expr> },
}

/// `(define (name param...) body)`.
#[derive(Debug)]
pub struct Rule {
    pub name: String,
    pub params: Vec<String>,
    pub body: Expr,
}

/// A parsed `(module ...)`.
#[derive(Debug)]
pub struct Module {
    pub rules: Vec<Rule>,
    pub policy: Policy,
}

/// An expression as plain values.
pub enum ExprModel {
    Lit(ValueModel),
    Var(Seq<char>),
    If(Box<ExprModel>, Box<ExprModel>, Box<ExprModel>),
    Call(Seq<char>, Seq<ExprModel>),
}

pub struct RuleModel {
    pub name: Seq<char>,
    pub params: Seq<Seq<char>>,
    pub body: ExprModel,
}

pub struct ModuleModel {
    pub rules: Seq<RuleModel>,
    pub policy: Policy,
}

pub open spec fn expr_model(e: Expr) -> ExprModel
    decreases e,
{
    match e {
        Expr::Lit(v) => ExprModel::Lit(v@),
        Expr::Var(n) => ExprModel::Var(n@),
        Expr::If { cond, then, else_ } => ExprModel::If(
            Box::new(expr_model(*cond)),
            Box::new(expr_model(*then)),
            Box::new(expr_model(*else_)),
        ),
        Expr::Call { name, args } => ExprModel::Call(name@, expr_models(args@)),
    }
}

pub open spec fn expr_models(s: Seq<Expr>) -> Seq<ExprModel>
    decreases s,
{
    if s.len() == 0 {
        seq![]
    } else {
        expr_models(s.subrange(0, s.len() - 1)).push(expr_model(s[s.len() - 1]))
    }
}

pub proof fn lemma_expr_models(s: Seq<Expr>)
    ensures
        expr_models(s).len() == s.len(),
        forall|i: int| 0 <= i < s.len() ==> #[trigger] expr_models(s)[i] == expr_model(s[i]),
    decreases s.len(),
{
    if s.len() > 0 {
        lemma_expr_models(s.subrange(0, s.len() - 1));
    }
}

impl View for Expr {
    type V = ExprModel;

    open spec fn view(&self) -> ExprModel {
        expr_model(*self)
    }
}

pub open spec fn names(s: Seq<String>) -> Seq<Seq<char>> {
    s.map_values(|x: String| x@)
}

impl View for Rule {
    type V = RuleModel;

    open spec fn view(&self) -> RuleModel {
        RuleModel { name: self.name@, params: names(self.params@), body: self.body@ }
    }
}

pub open spec fn rule_models(s: Seq<Rule>) -> Seq<RuleModel> {
    s.map_values(|r: Rule| r@)
}

impl View for Module {
    type V = ModuleModel;

    open spec fn view(&self) -> ModuleModel {
        ModuleModel { rules: rule_models(self.rules@), policy: self.policy }
    }
}

/// The index of the first rule named `name` at or after `k`.
pub open spec fn find_rule_from(rules: Seq<RuleModel>, name: Seq<char>, k: int) -> Option<int>
    decreases rules.len() - k,
{
    if k < 0 || k >= rules.len() {
        None
    } else if rules[k].name == name {
        Some(k)
    } else {
        find_rule_from(rules, name, k + 1)
    }
}

/// The index of the first rule named `name`.
pub open spec fn find_rule(rules: Seq<RuleModel>, name: Seq<char>) -> Option<int> {
    find_rule_from(rules, name, 0)
}

pub proof fn lemma_find_rule_from(rules: Seq<RuleModel>, name: Seq<char>, k: int)
    requires
        0 <= k,
    ensures
        find_rule_from(rules, name, k) matches Some(i) ==> k <= i < rules.len() && rules[i].name == name
            && forall|j: int| k <= j < i ==> rules[j].name != name,
        find_rule_from(rules, name, k) is None ==> forall|j: int| k <= j < rules.len() ==> rules[j].name != name,
    decreases rules.len() - k,
{
    if k < rules.len() && rules[k].name != name {
        lemma_find_rule_from(rules, name, k + 1);
    }
}

/// Index of the first rule named `name`.
pub fn rule_index(module: &Module, name: &str) -> (r: Option<usize>)
    ensures
        r matches Some(i) ==> find_rule(module@.rules, name@) == Some(i as int) && i < module.rules.len(),
        r is None ==> find_rule(module@.rules, name@) is None,
{
    let mut i: usize = 0;
    while i < module.rules.len()
        invariant
            i <= module.rules.len(),
            module@.rules.len() == module.rules.len(),
            find_rule(module@.rules, name@) == find_rule_from(module@.rules, name@, i as int),
        decreases module.rules.len() - i,
    {
        assert(module@.rules[i as int] == module.rules@[i as int]@);
        if crate::text::str_eq(module.rules[i].name.as_str(), name) {
            return Some(i);
        }
        i += 1;
    }
    None
}

} // verus!
