use zk_lsp::config::{MetadataFieldConfig, MetadataFieldKind};
use zk_lsp::reconcile::ast::Module;
use zk_lsp::reconcile::default_module::DEFAULT_MODULE;
use zk_lsp::reconcile::parser::parse_module;
use zk_lsp::reconcile::typecheck::{type_check_module, type_check_module_with_metadata, TypeInfo};
use zk_lsp::reconcile::types::{Type, TypeError};
use zk_lsp::toml_value::TomlValue;

fn ok_info(r: Result<TypeInfo, TypeError>, msg: &str) -> TypeInfo {
    match r {
        Ok(info) => info,
        Err(e) => panic!("{}: {:?}", msg, e),
    }
}

fn expect_type_error(r: Result<TypeInfo, TypeError>, msg: &str) -> TypeError {
    match r {
        Ok(_) => panic!("{}", msg),
        Err(e) => e,
    }
}

fn parse(src: &str) -> Module {
    parse_module(src).expect("parse error")
}

#[test]
fn default_module_passes_typecheck() {
    let module = parse(DEFAULT_MODULE);
    ok_info(type_check_module(&module), "default module should typecheck");
}

#[test]
fn materialize_checked_must_return_checkbox_writeback() {
    let src = r#"
    (module
      (define (materialized_fields n) (list))
      (define (effective_checked c) done)
      (define (materialize_checked c) done)
      (define (effective_meta n field) (observe_meta n field)))
    "#;
    let module = parse(src);
    let err = expect_type_error(type_check_module(&module), "should fail");
    assert!(matches!(err, TypeError::TypeMismatch { .. }));
}

#[test]
fn aggregate_status_list_status_ok() {
    let src = r#"
    (module
      (define (get_checked c) (observe_checked c))
      (define (test_rule cs)
        (aggregate_status (map get_checked cs))))
    "#;
    let module = parse(src);
    ok_info(type_check_module(&module), "should typecheck");
}

#[test]
fn aggregate_status_list_bool_fails() {
    let src = r#"
    (module
      (define (test_rule ns)
        (aggregate_status (map done? ns))))
    "#;
    let module = parse(src);
    let err = expect_type_error(type_check_module(&module), "should fail");
    assert!(matches!(err, TypeError::TypeMismatch { .. }));
}

#[test]
fn children_returns_checkbox_list() {
    let src = r#"
    (module
      (define (children_status c)
        (map effective_checked (children c)))
      (define (effective_checked c)
        (observe_checked c)))
    "#;
    let module = parse(src);
    ok_info(type_check_module(&module), "should typecheck");
}

#[test]
fn if_branch_mismatch() {
    let src = r#"
    (module
      (define (test n)
        (if true
            (observe_meta n "checklist-status")
            (observe_meta n "relation"))))
    "#;
    let module = parse(src);
    let err = expect_type_error(type_check_module(&module), "should fail");
    assert!(matches!(err, TypeError::IfBranchMismatch { .. }));
}

#[test]
fn map_to_unknown_function() {
    let src = r#"
    (module
      (define (test ns)
        (map nonexistent_fn ns)))
    "#;
    let module = parse(src);
    let err = expect_type_error(type_check_module(&module), "should fail");
    assert!(matches!(err, TypeError::UnknownFunction(_)));
}

#[test]
fn arithmetic_type_ok() {
    let src = r#"
    (module
      (define (add_ints n) (+ 1 2))
      (define (sub_ints n) (- 10 3)))
    "#;
    let module = parse(src);
    ok_info(type_check_module(&module), "arithmetic should typecheck");
}

#[test]
fn comparison_type_ok() {
    let src = r#"
    (module
      (define (is_less n) (< 1 2))
      (define (is_gte n) (>= 5 5)))
    "#;
    let module = parse(src);
    ok_info(type_check_module(&module), "comparisons should typecheck");
}

#[test]
fn filter_type_inference() {
    // map get_checked cs :: List(Status), then filter done? keeps only Status items.
    let src = r#"
    (module
      (define (get_checked c) (observe_checked c))
      (define (only_done cs) (filter done? (map get_checked cs))))
    "#;
    let module = parse(src);
    let info = ok_info(type_check_module(&module), "filter should typecheck");
    // filter done? over List(Status) → List(Status)
    let ret = info.rule_return_types.get("only_done");
    assert!(matches!(ret, Some(Type::List(_))));
}

#[test]
fn reduce_type_inference() {
    // Use a literal list so the item type is Int without relying on param heuristics.
    let src = r#"
    (module
      (define (sum_ints n) (reduce + 0 (list 1 2 3))))
    "#;
    let module = parse(src);
    let info = ok_info(type_check_module(&module), "reduce should typecheck");
    // reduce + 0 List(Int) → Int (init type)
    assert_eq!(info.rule_return_types.get("sum_ints"), Some(&Type::Int));
}

#[test]
fn backlinks_type_ok() {
    let src = r#"
    (module
      (define (note_backlinks n) (backlinks n)))
    "#;
    let module = parse(src);
    let info = ok_info(type_check_module(&module), "backlinks should typecheck");
    assert!(matches!(
        info.rule_return_types.get("note_backlinks"),
        Some(Type::List(_))
    ));
}

#[test]
fn length_type_ok() {
    let src = r#"
    (module
      (define (count_backlinks n) (length (backlinks n))))
    "#;
    let module = parse(src);
    let info = ok_info(type_check_module(&module), "length should typecheck");
    assert_eq!(
        info.rule_return_types.get("count_backlinks"),
        Some(&Type::Int)
    );
}

#[test]
fn union_dedup_type_ok() {
    let src = r#"
    (module
      (define (merged n m) (union (backlinks n) (backlinks m)))
      (define (unique n) (dedup (backlinks n))))
    "#;
    let module = parse(src);
    ok_info(type_check_module(&module), "union/dedup should typecheck");
}

#[test]
fn contains_type_ok() {
    let src = r#"
    (module
      (define (has_ref n m) (contains? (backlinks n) m)))
    "#;
    let module = parse(src);
    ok_info(type_check_module(&module), "contains? should typecheck");
}

#[test]
fn parent_type_ok() {
    let src = r#"
    (module
      (define (maybe_parent c) (parent c))
      (define (is_root c) (nil? (parent c))))
    "#;
    let module = parse(src);
    ok_info(type_check_module(&module), "parent/nil? should typecheck");
}

// --- Negative tests: wrong types are rejected ---

#[test]
fn plus_wrong_type_rejected() {
    let src = r#"
    (module
      (define (bad n) (+ 1 true)))
    "#;
    let module = parse(src);
    let err = expect_type_error(type_check_module(&module), "(+ 1 true) should fail");
    assert!(matches!(err, TypeError::TypeMismatch { .. }));
}

#[test]
fn map_with_binary_builtin_rejected() {
    // + needs 2 args; cannot be a map callback
    let src = r#"
    (module
      (define (bad ns) (map + ns)))
    "#;
    let module = parse(src);
    let err = expect_type_error(type_check_module(&module), "(map +) should fail");
    assert!(matches!(err, TypeError::WrongArgCount { .. }));
}

#[test]
fn filter_nonbool_predicate_rejected() {
    // observe_checked returns Status, not Bool
    let src = r#"
    (module
      (define (bad cs) (filter observe_checked cs)))
    "#;
    let module = parse(src);
    let err = expect_type_error(type_check_module(&module), "non-Bool predicate should fail");
    assert!(matches!(err, TypeError::TypeMismatch { .. }));
}

#[test]
fn reduce_one_param_rule_rejected() {
    // done? is a 1-param function; reduce needs a 2-param reducer
    let src = r#"
    (module
      (define (bad ns) (reduce done? done ns)))
    "#;
    let module = parse(src);
    let err = expect_type_error(type_check_module(&module), "1-param reducer should fail");
    assert!(matches!(err, TypeError::WrongArgCount { .. }));
}

#[test]
fn reduce_type_mismatch_rejected() {
    // init is Bool but reducer + returns Int
    let src = r#"
    (module
      (define (bad ns) (reduce + false ns)))
    "#;
    let module = parse(src);
    let err = expect_type_error(type_check_module(&module), "type mismatch in reduce should fail");
    assert!(matches!(err, TypeError::TypeMismatch { .. }));
}

#[test]
fn map_callback_param_type_mismatch_rejected() {
    // observe_checked expects CheckboxRef but list contains NoteRef
    let src = r#"
    (module
      (define (bad ns) (map observe_checked ns)))
    "#;
    // ns → List(NoteRef); observe_checked needs CheckboxRef → TypeMismatch
    let module = parse(src);
    let err = expect_type_error(type_check_module(&module), "param type mismatch in map should fail");
    assert!(matches!(err, TypeError::TypeMismatch { .. }));
}

#[test]
fn user_rule_callback_param_type_mismatch_rejected() {
    // is_done expects NoteRef (observe_meta needs NoteRef) but cs is List(CheckboxRef)
    let src = r#"
    (module
      (define (is_done n) (done? (observe_meta n "checklist-status")))
      (define (bad cs) (filter is_done cs)))
    "#;
    // cs → List(CheckboxRef); is_done(n) calls observe_meta which needs NoteRef
    // binding n=CheckboxRef inside is_done body will fail: observe_meta needs NoteRef
    let module = parse(src);
    let err = expect_type_error(type_check_module(&module), "callback param type mismatch should fail");
    assert!(matches!(err, TypeError::TypeMismatch { .. }));
}

#[test]
fn reduce_user_rule_param_type_checked() {
    // pick_first(n, m) returns its first arg; params n,m → NoteRef from heuristic.
    // Reducing over backlinks with a NoteRef init must pass.
    let src = r#"
    (module
      (define (pick_first n m) n)
      (define (first_backlink n) (reduce pick_first n (backlinks n))))
    "#;
    let module = parse(src);
    let info =
        ok_info(type_check_module(&module), "reduce with compatible 2-param rule should pass");
    assert_eq!(
        info.rule_return_types.get("first_backlink"),
        Some(&Type::NoteRef)
    );
}

#[test]
fn contains_first_arg_not_list_rejected() {
    // 42 is Int, not a List
    let src = r#"
    (module
      (define (bad n) (contains? 42 1)))
    "#;
    let module = parse(src);
    let err = expect_type_error(type_check_module(&module), "non-List first arg to contains? should fail");
    assert!(matches!(err, TypeError::TypeMismatch { .. }));
}

#[test]
fn contains_element_type_mismatch_rejected() {
    // backlinks(n) is List(NoteRef); 42 is Int — NoteRef ≠ Int
    let src = r#"
    (module
      (define (bad n) (contains? (backlinks n) 42)))
    "#;
    let module = parse(src);
    let err = expect_type_error(type_check_module(&module), "element type mismatch in contains? should fail");
    assert!(matches!(err, TypeError::TypeMismatch { .. }));
}

#[test]
fn observe_meta_uses_configured_field_types() {
    let src = r#"
    (module
      (define (bool_field n) (observe_meta n "user.done"))
      (define (array_field n) (observe_meta n "user.tags")))
    "#;
    let module = parse(src);
    let metadata_fields = vec![
        MetadataFieldConfig {
            path: "user.done".to_string(),
            kind: MetadataFieldKind::Boolean,
            default: TomlValue::Boolean(false),
        },
        MetadataFieldConfig {
            path: "user.tags".to_string(),
            kind: MetadataFieldKind::ArrayString,
            default: TomlValue::Array(Vec::new()),
        },
    ];
    type_check_module_with_metadata(&module, &metadata_fields).expect("should typecheck");
}
