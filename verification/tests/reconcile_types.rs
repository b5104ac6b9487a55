use zk_lsp::reconcile::types::{CheckboxId, EvalError, ParseError, Type, TypeError};

#[test]
fn type_names_nest_lists() {
    assert_eq!(Type::List(Box::new(Type::List(Box::new(Type::Int)))).text(), "List(List(Int))");
    assert_eq!(Type::CheckboxWriteback.text(), "CheckboxWriteback");
}

#[test]
fn error_messages() {
    assert_eq!(
        TypeError::WrongArgCount { name: "len".into(), expected: 1, got: 12 }.message(),
        "'len' expected 1 args, got 12"
    );
    assert_eq!(
        TypeError::TypeMismatch { expected: Type::Bool, got: Type::List(Box::new(Type::Status)) }.message(),
        "type mismatch: expected Bool, got List(Status)"
    );
    assert_eq!(
        TypeError::IfBranchMismatch { then_type: Type::Int, else_type: Type::Nil }.message(),
        "if branch type mismatch: then=Int, else=Nil"
    );
    assert_eq!(
        ParseError::InvalidPolicyValue { key: "k".into(), value: "v".into() }.message(),
        "invalid value 'v' for policy key 'k'"
    );
    assert_eq!(
        ParseError::UnexpectedToken { got: ")".into(), expected: "atom".into() }.message(),
        "unexpected token ')', expected atom"
    );
    assert_eq!(ParseError::UnexpectedEof.message(), "unexpected end of input");
    assert_eq!(EvalError::TypeMismatch { context: "map".into() }.message(), "type mismatch in map");
    assert_eq!(EvalError::UnknownVariable("x".into()).message(), "unknown variable 'x'");
}

#[test]
fn checkbox_ids_read_note_and_line() {
    assert_eq!(CheckboxId { note_id: "1111111111".into(), line_idx: 42 }.text(), "1111111111:42");
}
