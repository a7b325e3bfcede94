use testl::ast::{BinaryOperator, BinopExpression, Call, Expression, Literal, Parameter, Program, Statement, UnaryOperator, UnopExpression};
use testl::ast_store::{ASTStore, FALSE_LITERAL, NUMBER_1_LITERAL, TRUE_LITERAL, UNIT_LITERAL};
use testl::parser;
use testl::source::{SourceID, BUILTINS_SOURCE_ID};
use testl::span::SourceIDSpan;

fn parse(src: &str) -> (Program, ASTStore) {
    let (program, store) = parser::run(src, 1, ASTStore::new()).expect("should parse");
    (program.inner, store)
}

#[test]
fn mod_handles_empty_source() {
    let store = ASTStore::new();
    let source_id: SourceID = 3;
    let (program, _store) = parser::run("", source_id, store).expect("should parse");

    assert_eq!(program.inner, Program { functions: vec![] });
    assert_eq!(program.span, SourceIDSpan { context: source_id, start: 0, end: 0 });
}

#[test]
fn handles_nonempty_zero_token_source_with_zero_span() {
    let store = ASTStore::new();
    let source_id: SourceID = 3;

    let source = "\n\n   //jeejee    \n\n      /*somethingsomething(){\n\njoo\n  } kyl    \n\n    */    \n\n ";
    let (program, _store) = parser::run(source, source_id, store).expect("should parse");

    assert_eq!(program.inner, Program { functions: vec![] });
    assert_eq!(program.span, SourceIDSpan { context: source_id, start: 0, end: 0 });
}

// The cases below are not from the original test suite.

#[test]
fn refuses_the_builtins_source_id() {
    let r = parser::run("main() {}", BUILTINS_SOURCE_ID, ASTStore::new());
    assert_eq!(r.err().unwrap(), "BUILTINS_SOURCE_ID is reserved for builtins");
    // The id is refused before the text is lexed.
    let r = parser::run("@", 0, ASTStore::new());
    assert_eq!(r.err().unwrap(), "BUILTINS_SOURCE_ID is reserved for builtins");
}

#[test]
fn refuses_tokens_that_are_not_a_program() {
    assert!(parser::run("main() { return; ", 1, ASTStore::new()).is_err());
    assert!(parser::run("main() {} }", 1, ASTStore::new()).is_err());
    assert!(parser::run("Main() {}", 1, ASTStore::new()).is_err());
}

#[test]
fn stores_a_function_with_parameters_and_return_type() {
    let (program, store) = parse("add(Int a, b) -> Int { return a + b; }");
    assert_eq!(program.functions, vec![0]);
    let function = &store.functions[0].inner;
    assert_eq!(function.name.inner, "add");
    assert_eq!(function.return_type_string.as_ref().unwrap().inner, "Int");
    assert_eq!(function.params.len(), 2);
    match &function.params[0].inner {
        Parameter::Typed(t, n) => {
            assert_eq!(t.inner, "Int");
            assert_eq!(n.inner, "a");
        },
        _ => panic!("expected a typed parameter"),
    }
    assert_eq!(function.params[1].inner, Parameter::Untyped("b".to_string()));
    assert_eq!(function.body.len(), 1);
    let body = &store.statements[function.body[0]].inner;
    let value = match body {
        Statement::Return(e) => *e,
        _ => panic!("expected a return"),
    };
    match &store.expressions[value].inner {
        Expression::Binop(BinopExpression { op: BinaryOperator::Add, lhs, rhs }) => {
            assert_eq!(store.expressions[*lhs].inner, Expression::Identifier("a".to_string()));
            assert_eq!(store.expressions[*rhs].inner, Expression::Identifier("b".to_string()));
        },
        other => panic!("unexpected {:?}", other),
    }
}

#[test]
fn store_starts_with_the_predefined_literals() {
    let store = ASTStore::new();
    assert_eq!(store.expressions.len(), 4);
    assert_eq!(store.expressions[UNIT_LITERAL].inner, Expression::Literal(Literal::Unit));
    assert_eq!(store.expressions[TRUE_LITERAL].inner, Expression::Literal(Literal::Boolean(true)));
    assert_eq!(store.expressions[FALSE_LITERAL].inner, Expression::Literal(Literal::Boolean(false)));
    assert_eq!(store.expressions[NUMBER_1_LITERAL].inner, Expression::Literal(Literal::Number("1".to_string())));
}

#[test]
fn operators_group_to_the_left_and_by_level() {
    let (_, store) = parse("f() { x = 1 - 2 - 3 * 4; }");
    // The value is (1 - 2) - (3 * 4).
    let value = match &store.statements[store.functions[0].inner.body[0]].inner {
        Statement::Assignment(_, value) => *value,
        other => panic!("unexpected {:?}", other),
    };
    let (lhs, rhs) = match &store.expressions[value].inner {
        Expression::Binop(BinopExpression { op: BinaryOperator::Sub, lhs, rhs }) => (*lhs, *rhs),
        other => panic!("unexpected {:?}", other),
    };
    assert!(matches!(store.expressions[lhs].inner, Expression::Binop(BinopExpression { op: BinaryOperator::Sub, .. })));
    assert!(matches!(store.expressions[rhs].inner, Expression::Binop(BinopExpression { op: BinaryOperator::Mul, .. })));
}

#[test]
fn shorthand_and_postfix_assignments_become_assignments() {
    let (_, store) = parse("f() { x += 2; y++; z!!; }");
    let values: Vec<&Expression> = store.functions[0]
        .inner
        .body
        .iter()
        .map(|s| match &store.statements[*s].inner {
            Statement::Assignment(_, value) => &store.expressions[*value].inner,
            other => panic!("unexpected {:?}", other),
        })
        .collect();
    assert!(matches!(values[0], Expression::Binop(BinopExpression { op: BinaryOperator::Add, .. })));
    assert!(matches!(values[1], Expression::Binop(BinopExpression { op: BinaryOperator::Add, rhs: NUMBER_1_LITERAL, .. })));
    assert!(matches!(values[2], Expression::Unop(UnopExpression { op: UnaryOperator::UnaryNot, .. })));
}

#[test]
fn return_without_value_returns_unit_and_literals_are_predefined() {
    let (_, store) = parse("f() { return; g(true, false, ()); }");
    let body = &store.functions[0].inner.body;
    assert_eq!(store.statements[body[0]].inner, Statement::Return(UNIT_LITERAL));
    let call = match &store.statements[body[1]].inner {
        Statement::Expression(e) => &store.expressions[*e].inner,
        other => panic!("unexpected {:?}", other),
    };
    match call {
        Expression::Call(Call { args, .. }) => assert_eq!(args, &vec![TRUE_LITERAL, FALSE_LITERAL, UNIT_LITERAL]),
        other => panic!("unexpected {:?}", other),
    }
}

#[test]
fn parses_control_statements() {
    let (program, store) = parse(
        "main() { let i = 0; while (i < 10) { i++; } for (let j = 0; j < 3; j++) if (j == 1) continue; else break; switch i { case 1: x = 2; default: y = 3; } }",
    );
    assert_eq!(program.functions.len(), 1);
    let body = &store.functions[0].inner.body;
    assert_eq!(body.len(), 4);
    assert!(matches!(store.statements[body[0]].inner, Statement::Let(..)));
    assert!(matches!(store.statements[body[1]].inner, Statement::While { .. }));
    assert!(matches!(store.statements[body[2]].inner, Statement::For { .. }));
    match &store.statements[body[3]].inner {
        Statement::Switch { cases, .. } => {
            assert_eq!(cases.len(), 2);
            assert_eq!(cases[0].inner.matched_value.as_ref().unwrap().inner, "1");
            assert!(cases[1].inner.matched_value.is_none());
        },
        other => panic!("unexpected {:?}", other),
    }
}

#[test]
fn every_node_refers_to_nodes_stored_before_it() {
    let (_, store) = parse("f(a) { if (a > 1) { return g(a - 1) * 2; } else { x = -a; } }");
    for (i, s) in store.statements.iter().enumerate() {
        let children: Vec<usize> = match &s.inner {
            Statement::Block(ids) => ids.clone(),
            Statement::If { body, .. } => vec![*body],
            Statement::IfElse(a, b) => vec![*a, *b],
            _ => vec![],
        };
        assert!(children.iter().all(|c| *c < i));
    }
}

#[test]
fn parsing_only_adds_nodes_to_the_store() {
    let (_, first) = parse("f() { return 1; }");
    let (n_functions, n_statements, n_expressions) = (first.functions.len(), first.statements.len(), first.expressions.len());
    let before_statements: Vec<Statement> = first.statements.iter().map(|s| s.inner.clone()).collect();
    let (program, second) = parser::run("g() { h(); }", 2, first).expect("should parse");
    assert!(second.functions.len() > n_functions);
    assert!(second.statements.len() > n_statements);
    assert!(second.expressions.len() > n_expressions);
    for (i, s) in before_statements.iter().enumerate() {
        assert_eq!(&second.statements[i].inner, s);
    }
    assert_eq!(program.inner.functions, vec![n_functions]);
    assert_eq!(second.functions[n_functions].inner.name.inner, "g");
}

#[test]
fn failed_attempts_leave_their_nodes_in_the_store() {
    // Before the closing brace, an empty statement is tried and stored, and then refused for
    // want of a `;`.
    let (_, store) = parse("f() { }");
    assert_eq!(store.functions[0].inner.body, Vec::<usize>::new());
    assert_eq!(store.statements.len(), 1);
    assert_eq!(store.statements[0].inner, Statement::Empty);
}

#[test]
fn an_if_else_starts_with_an_if_stored_before_it() {
    let (_, store) = parse("main() { if (x) y; else if (z) w; else v; }");
    let mut found = 0;
    for (k, statement) in store.statements.iter().enumerate() {
        if let Statement::IfElse(first, second) = statement.inner {
            found += 1;
            assert!(first < k && second < k);
            assert!(matches!(store.statements[first].inner, Statement::If { .. }));
        }
    }
    assert_eq!(found, 2);
}

#[test]
fn building_blocks_fail_on_no_tokens() {
    let toks = Vec::new();
    let mut store = ASTStore::new();
    let sizes = (store.functions.len(), store.statements.len(), store.expressions.len());
    assert_eq!(parser::expression::expression(&toks, &mut store, 0), None);
    assert_eq!(parser::statement::statement(&toks, &mut store, 0), None);
    assert_eq!(parser::statement::let_statement(&toks, &mut store, 0), None);
    assert_eq!(parser::function::function(&toks, &mut store, 0), None);
    assert_eq!(sizes, (store.functions.len(), store.statements.len(), store.expressions.len()));
}
