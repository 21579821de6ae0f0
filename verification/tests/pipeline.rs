use minilisp::evaluator::Evaluator;
use minilisp::grammar::Expr;
use minilisp::lexer::tokenize;
use minilisp::parser::Parser;
use minilisp::types::Type;

fn run(parser: &mut Parser, evaluator: &mut Evaluator, src: &str) -> Type {
    let tokens = tokenize(src);
    let expr = parser.parse(tokens).expect("parse failed");
    evaluator.evaluate(expr)
}

fn single(result: Type) -> Type {
    match result {
        Type::Sequence(mut items) => {
            assert_eq!(items.len(), 1);
            items.pop().unwrap()
        }
        other => panic!("expected a sequence value, got {:?}", other),
    }
}

#[test]
fn def_binds_and_persists() {
    let mut parser = Parser::new();
    let mut evaluator = Evaluator::new();
    let first = single(run(&mut parser, &mut evaluator, "(def x 5)"));
    assert!(matches!(first, Type::Int(5)));
    let second = single(run(&mut parser, &mut evaluator, "x"));
    assert!(matches!(second, Type::Int(5)));
}

#[test]
fn conditional_picks_consequent() {
    let mut parser = Parser::new();
    let mut evaluator = Evaluator::new();
    let r = single(run(&mut parser, &mut evaluator, "(if (> 3 2) 10 20)"));
    assert!(matches!(r, Type::Int(10)));
}

#[test]
fn conditional_picks_alternate() {
    let mut parser = Parser::new();
    let mut evaluator = Evaluator::new();
    let r = single(run(&mut parser, &mut evaluator, "(if (> 2 3) 10 20)"));
    assert!(matches!(r, Type::Int(20)));
}

#[test]
fn type_mismatch_is_an_error_value() {
    let mut parser = Parser::new();
    let mut evaluator = Evaluator::new();
    let r = single(run(&mut parser, &mut evaluator, "(+ 1 true)"));
    assert!(matches!(r, Type::Error(_)));
}

#[test]
fn division_matches_host_division() {
    let mut parser = Parser::new();
    let mut evaluator = Evaluator::new();
    let cases = [("(/ 7 2)", 7 / 2), ("(/ 9 3)", 9 / 3), ("(/ 0 5)", 0), ("(/ 100 7)", 100 / 7)];
    for (src, expected) in cases {
        let r = single(run(&mut parser, &mut evaluator, src));
        match r {
            Type::Int(n) => assert_eq!(n, expected),
            other => panic!("expected an integer, got {:?}", other),
        }
    }
}

#[test]
fn division_by_zero_is_an_error_value() {
    let mut parser = Parser::new();
    let mut evaluator = Evaluator::new();
    let r = single(run(&mut parser, &mut evaluator, "(/ 1 0)"));
    match r {
        Type::Error(m) => assert_eq!(m, "Division by zero."),
        other => panic!("expected an error value, got {:?}", other),
    }
}

#[test]
fn multiplication_overflow_is_an_error_value() {
    let mut parser = Parser::new();
    let mut evaluator = Evaluator::new();
    let r = single(run(&mut parser, &mut evaluator, "(* 9223372036854775807 2)"));
    match r {
        Type::Error(m) => assert_eq!(m, "Arithmetic overflow."),
        other => panic!("expected an error value, got {:?}", other),
    }
}

#[test]
fn same_input_same_fresh_state_same_output() {
    let mut parser1 = Parser::new();
    let mut evaluator1 = Evaluator::new();
    let r1 = run(&mut parser1, &mut evaluator1, "(def y (+ 2 3)) (* y y)");
    let mut parser2 = Parser::new();
    let mut evaluator2 = Evaluator::new();
    let r2 = run(&mut parser2, &mut evaluator2, "(def y (+ 2 3)) (* y y)");
    assert_eq!(r1.render(), r2.render());
    match (r1, r2) {
        (Type::Sequence(a), Type::Sequence(b)) => {
            assert_eq!(a.len(), 2);
            assert_eq!(b.len(), 2);
            assert!(matches!(a[1], Type::Int(25)));
            assert!(matches!(b[1], Type::Int(25)));
        }
        _ => panic!("expected sequence values"),
    }
}

#[test]
fn closure_renders_its_debug_form() {
    let mut parser = Parser::new();
    let mut evaluator = Evaluator::new();
    let tokens = minilisp::lexer::tokenize("(fn (x) x)");
    let expr = parser.parse(tokens).expect("parse failed");
    let r = evaluator.evaluate(expr);
    assert_eq!(r.render(), "Fn([\"x\"], Ident(\"x\"), 0)");
}

#[test]
fn fn_form_evaluates_to_a_closure() {
    let mut parser = Parser::new();
    let mut evaluator = Evaluator::new();
    let r = single(run(&mut parser, &mut evaluator, "(fn (x) x)"));
    match r {
        Type::Fn(params, body, _scope) => {
            assert_eq!(params, vec!["x".to_string()]);
            assert!(matches!(body, Expr::Ident(_)));
        }
        other => panic!("expected a closure value, got {:?}", other),
    }
}

#[test]
fn unbound_identifier_names_itself() {
    let mut parser = Parser::new();
    let mut evaluator = Evaluator::new();
    let r = single(run(&mut parser, &mut evaluator, "nosuch"));
    match r {
        Type::Error(m) => {
            assert_eq!(m, "No binding for identifier 'nosuch' found in the current scope.")
        }
        other => panic!("expected an error value, got {:?}", other),
    }
}

#[test]
fn empty_input_is_an_empty_sequence() {
    let mut parser = Parser::new();
    let mut evaluator = Evaluator::new();
    let r = run(&mut parser, &mut evaluator, "");
    match &r {
        Type::Sequence(items) => assert_eq!(items.len(), 0),
        other => panic!("expected a sequence value, got {:?}", other),
    }
    assert_eq!(r.render(), "()");
}

#[test]
fn program_value_is_every_expression_in_order() {
    let mut parser = Parser::new();
    let mut evaluator = Evaluator::new();
    let r = run(&mut parser, &mut evaluator, "1 2 3");
    match &r {
        Type::Sequence(items) => {
            assert_eq!(items.len(), 3);
            assert!(matches!(items[0], Type::Int(1)));
            assert!(matches!(items[1], Type::Int(2)));
            assert!(matches!(items[2], Type::Int(3)));
        }
        other => panic!("expected a sequence value, got {:?}", other),
    }
    assert_eq!(r.render(), "Int(3)");
}

#[test]
fn nested_parentheses_reach_the_inner_expression() {
    let mut parser = Parser::new();
    let mut evaluator = Evaluator::new();
    let r = single(run(&mut parser, &mut evaluator, "((5))"));
    assert!(matches!(r, Type::Int(5)));
}

#[test]
fn greater_or_equal_parses_and_compares() {
    let mut parser = Parser::new();
    let mut evaluator = Evaluator::new();
    let r = single(run(&mut parser, &mut evaluator, "(>= 3 3)"));
    assert!(matches!(r, Type::Bool(true)));
    let r2 = single(run(&mut parser, &mut evaluator, "(<= 4 3)"));
    assert!(matches!(r2, Type::Bool(false)));
}

#[test]
fn boolean_operands_admit_equality_alone() {
    let mut parser = Parser::new();
    let mut evaluator = Evaluator::new();
    let eq = single(run(&mut parser, &mut evaluator, "(= (> 3 2) (> 2 1))"));
    assert!(matches!(eq, Type::Bool(true)));
    let plus = single(run(&mut parser, &mut evaluator, "(+ (> 3 2) (> 2 1))"));
    assert!(matches!(plus, Type::Error(_)));
}

#[test]
fn def_inside_operand_mutates_the_root_scope() {
    let mut parser = Parser::new();
    let mut evaluator = Evaluator::new();
    let r = single(run(&mut parser, &mut evaluator, "(+ (def a 4) 1)"));
    assert!(matches!(r, Type::Int(5)));
    let again = single(run(&mut parser, &mut evaluator, "a"));
    assert!(matches!(again, Type::Int(4)));
}
