use minilisp::evaluator::Evaluator;
use minilisp::grammar::Expr;
use minilisp::scope::Scope;
use minilisp::types::{render_int, Type};

#[test]
fn integers_render_in_decimal() {
    assert_eq!(Type::Int(0).render(), "0");
    assert_eq!(Type::Int(42).render(), "42");
    assert_eq!(Type::Int(-42).render(), "-42");
    assert_eq!(render_int(isize::MIN), isize::MIN.to_string());
    assert_eq!(render_int(isize::MAX), isize::MAX.to_string());
}

#[test]
fn other_values_render_their_display_form() {
    assert_eq!(Type::Bool(true).render(), "true");
    assert_eq!(Type::Bool(false).render(), "false");
    assert_eq!(Type::Str("hi".to_string()).render(), "hi");
    assert_eq!(Type::Error("boom".to_string()).render(), "boom");
    assert_eq!(Type::Sequence(vec![]).render(), "()");
    assert_eq!(Type::Sequence(vec![Type::Int(1), Type::Int(7)]).render(), "Int(7)");
    assert_eq!(Type::Fn(vec![], Expr::Value(1), 0).render(), "");
}

#[test]
fn scope_bind_and_get() {
    let mut scopes = vec![Scope::global()];
    scopes[0].bind("x".to_string(), Type::Int(1));
    let got = Scope::get(&scopes, 0, "x");
    assert!(matches!(got, Some(Type::Int(1))));
    assert!(Scope::get(&scopes, 0, "y").is_none());
}

#[test]
fn rebinding_replaces_in_the_same_frame() {
    let mut scopes = vec![Scope::global()];
    scopes[0].bind("x".to_string(), Type::Int(1));
    scopes[0].bind("x".to_string(), Type::Int(2));
    let got = Scope::get(&scopes, 0, "x");
    assert!(matches!(got, Some(Type::Int(2))));
}

#[test]
fn lookup_delegates_to_the_parent_frame() {
    let mut scopes = vec![Scope::global(), Scope::new(0)];
    scopes[0].bind("x".to_string(), Type::Int(7));
    scopes[1].bind("y".to_string(), Type::Int(8));
    assert!(matches!(Scope::get(&scopes, 1, "x"), Some(Type::Int(7))));
    assert!(matches!(Scope::get(&scopes, 1, "y"), Some(Type::Int(8))));
    assert!(Scope::get(&scopes, 0, "y").is_none());
}

#[test]
fn local_binding_shadows_the_parent() {
    let mut scopes = vec![Scope::global(), Scope::new(0)];
    scopes[0].bind("x".to_string(), Type::Int(1));
    scopes[1].bind("x".to_string(), Type::Int(2));
    assert!(matches!(Scope::get(&scopes, 1, "x"), Some(Type::Int(2))));
    assert!(matches!(Scope::get(&scopes, 0, "x"), Some(Type::Int(1))));
}

#[test]
fn bind_returns_the_bound_value() {
    let mut scope = Scope::global();
    let r = scope.bind("x".to_string(), Type::Int(9));
    assert!(matches!(r, Type::Int(9)));
}

#[test]
fn bind_target_must_be_an_identifier() {
    let mut evaluator = Evaluator::new();
    let bad = Expr::Bind(Box::new(Expr::Value(1)), Box::new(Expr::Value(2)));
    let r = evaluator.evaluate(bad);
    assert!(matches!(r, Type::Error(_)));
}

#[test]
fn fn_parameters_must_be_a_list_of_identifiers() {
    let mut evaluator = Evaluator::new();
    let not_a_list = Expr::FnDef(Box::new(Expr::Value(1)), Box::new(Expr::Value(2)));
    match evaluator.evaluate(not_a_list) {
        Type::Error(m) => assert_eq!(m, "Expected argument list"),
        other => panic!("expected an error value, got {:?}", other),
    }
    let bad_param = Expr::FnDef(
        Box::new(Expr::List(vec![Expr::Value(3)])),
        Box::new(Expr::Value(2)),
    );
    match evaluator.evaluate(bad_param) {
        Type::Error(m) => assert_eq!(m, "Expected identifier"),
        other => panic!("expected an error value, got {:?}", other),
    }
}

#[test]
fn error_values_are_falsy_in_conditionals() {
    let mut evaluator = Evaluator::new();
    let cond = Expr::If(
        Box::new(Expr::Ident("missing".to_string())),
        Box::new(Expr::Value(1)),
        Box::new(Expr::Value(2)),
    );
    let r = evaluator.evaluate(cond);
    assert!(matches!(r, Type::Int(2)));
}

#[test]
fn non_boolean_tests_are_falsy() {
    let mut evaluator = Evaluator::new();
    let cond = Expr::If(
        Box::new(Expr::Value(1)),
        Box::new(Expr::Value(1)),
        Box::new(Expr::Value(2)),
    );
    let r = evaluator.evaluate(cond);
    assert!(matches!(r, Type::Int(2)));
}

#[test]
fn mismatch_error_names_operator_and_operands() {
    let mut evaluator = Evaluator::new();
    let bad = Expr::BinaryOp(
        minilisp::lexer::TokenKind::Plus,
        Box::new(Expr::Value(1)),
        Box::new(Expr::Ident("nope".to_string())),
    );
    match evaluator.evaluate(bad) {
        Type::Error(m) => assert_eq!(
            m,
            "Operator: 'Plus' cannot be applied to arguments of type Int(1) and \
             Err(\"No binding for identifier 'nope' found in the current scope.\")."
        ),
        other => panic!("expected an error value, got {:?}", other),
    }
}

#[test]
fn bind_error_names_the_value_expression() {
    let mut evaluator = Evaluator::new();
    let bad = Expr::Bind(Box::new(Expr::Value(1)), Box::new(Expr::Value(2)));
    match evaluator.evaluate(bad) {
        Type::Error(m) => {
            assert_eq!(m, "Cannot bind to 'Value(2)' as it is not a valid identifier.")
        }
        other => panic!("expected an error value, got {:?}", other),
    }
}

#[test]
fn sequences_render_as_the_debug_of_their_last_element() {
    let nested = Type::Sequence(vec![Type::Sequence(vec![Type::Int(1), Type::Bool(true)])]);
    assert_eq!(nested.render(), "Seq([Int(1), Bool(true)])");
    let with_error = Type::Sequence(vec![Type::Error("boom".to_string())]);
    assert_eq!(with_error.render(), "Err(\"boom\")");
    let with_str = Type::Sequence(vec![Type::Str("a\"b\\c".to_string())]);
    assert_eq!(with_str.render(), "Str(\"a\\\"b\\\\c\")");
}

#[test]
fn base_marker_evaluates_its_inner_node() {
    let mut evaluator = Evaluator::new();
    let wrapped = Expr::Base(Box::new(Expr::Value(11)));
    let r = evaluator.evaluate(wrapped);
    assert!(matches!(r, Type::Int(11)));
}
