use testl::ast::{Case, Function, Parameter, Statement};
use testl::codegen::switch::plan_switch;
use testl::codegen::function::{plan_function, FunctionPlan};
use testl::codegen::literal::unescape;
use testl::ast_store::ASTStore;
use testl::codegen::node_data::{NodeCodegenStatus, NodeDataStore, StatementData};
use testl::codegen::scope::{Scope, Scopes, Symbol};
use testl::codegen::types::{declared_type, simple_type_to_ir_type, type_string_to_ir_type, IrType};
use testl::span::{with_span, SourceIDSpan, SourceIDSpanned};
use testl::types::SimpleType;

#[test]
fn unescapes_newline() {
    let escaped = unescape("\\n");
    assert_eq!(escaped, "\n");
}

#[test]
fn unescapes_cr() {
    let escaped = unescape("\\n");
    assert_eq!(escaped, "\n");
}

#[test]
fn unescapes_backslash() {
    let escaped = unescape("\\\\");
    assert_eq!(escaped, "\\");
}

// The cases below are not from the original test suite.

#[test]
fn unescapes_in_order_and_leaves_other_text() {
    assert_eq!(unescape("a\\rb\\nc"), "a\rb\nc");
    assert_eq!(unescape("plain \\t"), "plain \\t");
    // The text is read once from left to right: an escaped backslash followed by `n` is a
    // backslash and a plain `n`.
    assert_eq!(unescape("\\\\n"), "\\n");
    assert_eq!(unescape("\\\\\\r"), "\\\r");
    // A backslash that starts no escape stays, also at the end.
    assert_eq!(unescape("a\\qb\\"), "a\\qb\\");
}

type TestSymbol = Symbol<u32, u8, u16, u64>;

#[test]
fn names_resolve_outwards_and_shadowing_ends_with_the_scope() {
    let mut scopes: Scopes<TestSymbol> = Scopes::new();
    scopes.define_identifier("x", Symbol::Value(1));
    scopes.define_global_function("f", 7);
    assert!(matches!(scopes.resolve_identifier("x"), Some(Symbol::Value(1))));

    let inner = scopes.push_new_scope();
    assert_eq!(inner.parent_id, Some(0));
    inner.define_param("x", Symbol::Formal(2)).unwrap();
    assert_eq!(scopes.current_scope_id, 1);
    assert!(matches!(scopes.resolve_identifier("x"), Some(Symbol::Formal(2))));
    assert_eq!(scopes.resolve_function("f"), Some(7));
    assert_eq!(scopes.resolve_function("x"), None);
    assert!(scopes.resolve_identifier("y").is_none());

    scopes.pop_scope();
    assert_eq!(scopes.current_scope_id, 0);
    assert!(matches!(scopes.resolve_identifier("x"), Some(Symbol::Value(1))));
    assert!(matches!(scopes.resolve_identifier_in_scope("x", &1), Some(Symbol::Formal(2))));
}

#[test]
fn a_parameter_cannot_be_defined_twice() {
    let mut scope: Scope<TestSymbol> = Scope::new(None);
    assert!(scope.define_param("a", Symbol::Formal(1)).is_ok());
    assert_eq!(
        scope.define_param("a", Symbol::Formal(2)).unwrap_err(),
        "Attempt to redefine identifier a as a formal parameter"
    );
    assert!(matches!(scope.get("a"), Some(Symbol::Formal(1))));
}

#[test]
fn defining_again_replaces_a_symbol() {
    let mut scopes: Scopes<TestSymbol> = Scopes::new();
    scopes.define_identifier("v", Symbol::Value(1));
    scopes.define_identifier("v", Symbol::Value(2));
    assert!(matches!(scopes.resolve_identifier("v"), Some(Symbol::Value(2))));
    assert_eq!(scopes.get_global_scope().identifiers.len(), 1);
}

#[test]
fn types_map_to_machine_types() {
    assert_eq!(simple_type_to_ir_type(SimpleType::Int), Ok(Some(IrType::I32)));
    assert_eq!(simple_type_to_ir_type(SimpleType::Char), Ok(Some(IrType::I8)));
    assert_eq!(simple_type_to_ir_type(SimpleType::String), Ok(Some(IrType::Ptr)));
    assert_eq!(simple_type_to_ir_type(SimpleType::Void), Ok(None));
    assert_eq!(simple_type_to_ir_type(SimpleType::Unknown), Err("Tried to convern Unknown into llvm type".to_string()));
    assert_eq!(type_string_to_ir_type("Bool"), Ok(Some(IrType::Bool)));
    assert_eq!(type_string_to_ir_type("Float"), Ok(Some(IrType::F64)));
    assert_eq!(type_string_to_ir_type("int"), Err("invalid_type_string".to_string()));
}

const SPAN: SourceIDSpan = SourceIDSpan { context: 1, start: 0, end: 0 };

fn function(name: &str, return_type: Option<&str>, params: Vec<Parameter>) -> Function {
    Function {
        name: with_span(name.to_string(), SPAN),
        return_type_string: return_type.map(|t| with_span(t.to_string(), SPAN)),
        params: params.into_iter().map(|p| with_span(p, SPAN)).collect(),
        body: vec![],
    }
}

fn typed(t: &str, n: &str) -> Parameter {
    Parameter::Typed(with_span(t.to_string(), SPAN), with_span(n.to_string(), SPAN))
}

#[test]
fn plans_functions() {
    match plan_function(&function("f", Some("Bool"), vec![Parameter::Untyped("a".to_string()), typed("Char", "b")])).unwrap() {
        FunctionPlan::Regular { return_type, result, params } => {
            assert_eq!(return_type, SimpleType::Boolean);
            assert_eq!(result, Some(IrType::Bool));
            assert_eq!(params, vec![IrType::I32, IrType::I8]);
        },
        FunctionPlan::Main => panic!("not main"),
    }
    match plan_function(&function("g", None, vec![])).unwrap() {
        FunctionPlan::Regular { return_type, result, params } => {
            assert_eq!(return_type, SimpleType::Void);
            assert_eq!(result, None);
            assert!(params.is_empty());
        },
        FunctionPlan::Main => panic!("not main"),
    }
    assert!(matches!(plan_function(&function("main", None, vec![])), Ok(FunctionPlan::Main)));
    assert!(matches!(plan_function(&function("main", Some("Int"), vec![])), Ok(FunctionPlan::Main)));
}

#[test]
fn refuses_functions_that_cannot_be_generated() {
    let error = |f: Function| plan_function(&f).err().unwrap();
    assert_eq!(error(function("f", Some("Integer"), vec![])), "invalid return type Integer");
    assert_eq!(error(function("main", Some("Integer"), vec![])), "invalid return type Integer");
    assert_eq!(error(function("main", Some("Bool"), vec![])), "main function is only allowed return type Int (if specified)");
    assert_eq!(error(function("f", None, vec![typed("Void", "x")])), "Void is not allowed as a parameter type");
    assert_eq!(error(function("f", None, vec![typed("Nope", "x"), typed("Void", "y")])), "invalid_type_string");
    assert_eq!(error(function("f", None, vec![typed("Unknown", "x")])), "Tried to convern Unknown into llvm type");
    assert_eq!(error(function("f", Some("Unknown"), vec![])), "Unknown type as return type");
}

#[test]
fn node_data_starts_empty() {
    assert_eq!(NodeCodegenStatus::default(), NodeCodegenStatus::NotStarted);
    assert_eq!(StatementData::default().scope_id, None);
}

#[test]
fn node_data_has_a_fresh_record_per_node() {
    let (_, store) = testl::parser::run("f() { return; }", 1, ASTStore::new()).unwrap();
    let data: NodeDataStore<u8, u16> = NodeDataStore::new(&store);
    assert_eq!(data.functions.len(), store.functions.len());
    assert_eq!(data.statements.len(), store.statements.len());
    assert_eq!(data.expressions.len(), store.expressions.len());
    assert!(data.functions.iter().all(|f| f.status == NodeCodegenStatus::NotStarted && f.ir_value.is_none()));
    assert!(data.expressions.iter().all(|e| e.type_ == SimpleType::Unknown));
}

fn case(value: Option<&str>, body: Vec<usize>) -> SourceIDSpanned<Case> {
    let span = SourceIDSpan::new(1, 0..0);
    with_span(
        Case { matched_value: value.map(|v| with_span(v.to_string(), span)), body },
        span,
    )
}

#[test]
fn plans_switch_cases_with_fallthrough_breaks_and_default() {
    let span = SourceIDSpan::new(1, 0..0);
    let mut store = ASTStore::new();
    let a = store.add_statement(Statement::Empty, span);
    let brk = store.add_statement(Statement::Break, span);
    let b = store.add_statement(Statement::Continue, span);
    let cases = vec![
        case(Some("1"), vec![a, b]),
        case(None, vec![a, brk, b]),
        case(Some("3"), vec![brk]),
        case(Some("4"), vec![b]),
    ];
    let plan = plan_switch(&store, &cases);
    assert_eq!(plan.cases.len(), 4);
    assert_eq!(plan.cases[0].statements, vec![a, b]);
    assert_eq!(plan.cases[0].next, Some(1));
    assert_eq!(plan.cases[1].statements, vec![a]);
    assert_eq!(plan.cases[1].next, None);
    assert_eq!(plan.cases[2].statements, Vec::<usize>::new());
    assert_eq!(plan.cases[2].next, None);
    assert_eq!(plan.cases[3].statements, vec![b]);
    assert_eq!(plan.cases[3].next, None);
    assert_eq!(plan.table, vec![("1".to_string(), 0), ("3".to_string(), 2), ("4".to_string(), 3)]);
    assert_eq!(plan.default_case, Some(1));
}

#[test]
fn a_switch_without_default_sends_other_values_past_it() {
    let store = ASTStore::new();
    let plan = plan_switch(&store, &vec![case(Some("7"), vec![])]);
    assert_eq!(plan.default_case, None);
    assert_eq!(plan.cases[0].next, None);
    assert_eq!(plan.table, vec![("7".to_string(), 0)]);
}

#[test]
fn a_value_declares_its_named_type_or_int() {
    let span = SourceIDSpan::new(1, 0..0);
    let typed = |name: &str| testl::ast::Expression::TypedExpression(with_span(name.to_string(), span), 0);
    assert_eq!(declared_type(&typed("Bool")), Some(SimpleType::Boolean));
    assert_eq!(declared_type(&typed("Nope")), None);
    assert_eq!(declared_type(&testl::ast::Expression::Identifier("x".to_string())), Some(SimpleType::Int));
}
