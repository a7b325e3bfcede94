use testl::ast::{Expression, Function, FunctionID, Literal, NodeRef, Program, Statement, ExpressionID, StatementID};
use testl::ast_store::{ASTStore, Store};
use testl::ast_visitor::{ASTVisitor, MatchingASTVisitor};
use testl::span::{with_span, SourceIDSpan, SourceIDSpanned};

const DUMMY_SPAN: SourceIDSpan = SourceIDSpan { context: 0, start: 0, end: 0 };

/// Answers with the name of the first function it enters.
struct FunctionName;

/// Answers with the text of the first string literal it enters.
struct FirstString;

/// Records every step and never answers.
#[derive(Default)]
struct Recorder {
    steps: Vec<String>,
}

impl MatchingASTVisitor<String> for FunctionName {
    fn visit_node(&mut self, node: NodeRef) -> Option<String> {
        match node {
            NodeRef::Function(function) => Some(function.inner.name.inner.clone()),
            _ => None,
        }
    }
}

impl MatchingASTVisitor<String> for FirstString {
    fn visit_node(&mut self, node: NodeRef) -> Option<String> {
        match node {
            NodeRef::Expression(expression) => match &expression.inner {
                Expression::Literal(Literal::String(value)) => Some(value.clone()),
                _ => None,
            },
            _ => None,
        }
    }
}

impl ASTVisitor<()> for Recorder {
    fn enter_program(&mut self, _program: &SourceIDSpanned<Program>) -> Option<()> {
        self.steps.push("enter program".to_string());
        None
    }
    fn enter_function(&mut self, function: (&SourceIDSpanned<Function>, FunctionID)) -> Option<()> {
        self.steps.push(format!("enter function {}", function.1));
        None
    }
    fn enter_statement(&mut self, statement: (&SourceIDSpanned<Statement>, StatementID)) -> Option<()> {
        self.steps.push(format!("enter statement {}", statement.1));
        None
    }
    fn enter_expression(&mut self, expression: (&SourceIDSpanned<Expression>, ExpressionID)) -> Option<()> {
        self.steps.push(format!("enter expression {}", expression.1));
        None
    }
    fn exit_program(&mut self, _program: &SourceIDSpanned<Program>) -> Option<()> {
        self.steps.push("exit program".to_string());
        None
    }
    fn exit_function(&mut self, function: (&SourceIDSpanned<Function>, FunctionID)) -> Option<()> {
        self.steps.push(format!("exit function {}", function.1));
        None
    }
    fn exit_statement(&mut self, statement: (&SourceIDSpanned<Statement>, StatementID)) -> Option<()> {
        self.steps.push(format!("exit statement {}", statement.1));
        None
    }
    fn exit_expression(&mut self, expression: (&SourceIDSpanned<Expression>, ExpressionID)) -> Option<()> {
        self.steps.push(format!("exit expression {}", expression.1));
        None
    }
}

#[test]
fn finds_a_function() {
    let mut store = ASTStore::new();

    let function1 = with_span(
        Function {
            name: with_span("f1".to_string(), DUMMY_SPAN),
            return_type_string: None,
            params: vec![],
            body: vec![store.statements.add(with_span(Statement::Empty, DUMMY_SPAN))],
        },
        DUMMY_SPAN,
    );
    let mut node = with_span(Program { functions: vec![store.functions.add(function1)] }, DUMMY_SPAN);

    let first_function_name = store.walk_program(&mut FunctionName, &mut node).expect("should have a function");

    assert_eq!(first_function_name, "f1");
}

#[test]
fn finds_a_node() {
    let mut store = ASTStore::new();

    let string_literal = store
        .expressions
        .add(with_span(Expression::Literal(Literal::String("test_string".to_string())), DUMMY_SPAN));
    let body1 = vec![store.statements.add(with_span(Statement::Empty, DUMMY_SPAN))];
    let function1 = store.functions.add(with_span(
        Function { name: with_span("f1".to_string(), DUMMY_SPAN), return_type_string: None, params: vec![], body: body1 },
        DUMMY_SPAN,
    ));
    let body2 = vec![store.statements.add(with_span(Statement::Expression(string_literal.clone()), DUMMY_SPAN))];
    let function2 = store.functions.add(with_span(
        Function { name: with_span("f2".to_string(), DUMMY_SPAN), return_type_string: None, params: vec![], body: body2 },
        DUMMY_SPAN,
    ));
    let mut node = with_span(Program { functions: vec![function1, function2] }, DUMMY_SPAN);

    let first_string_literal_value = store.walk_program(&mut FirstString, &mut node).expect("should find a string");

    assert_eq!(first_string_literal_value, "test_string");
}

// The case below is not from the original test suite.

#[test]
fn walks_in_preorder_and_leaves_each_node() {
    let (program, mut store) = testl::parser::run("f() { return -x; }", 1, ASTStore::new()).unwrap();
    let mut program = program;
    let mut recorder = Recorder::default();
    assert_eq!(store.walk_program(&mut recorder, &mut program), None);
    let function = program.inner.functions[0];
    let statement = store.functions[function].inner.body[0];
    let value = match store.statements[statement].inner {
        Statement::Return(e) => e,
        _ => panic!("expected a return"),
    };
    let term = match &store.expressions[value].inner {
        Expression::Unop(unop) => unop.term,
        _ => panic!("expected a negation"),
    };
    assert_eq!(
        recorder.steps,
        vec![
            format!("enter function {}", function),
            format!("enter statement {}", statement),
            format!("enter expression {}", value),
            format!("enter expression {}", term),
            format!("exit expression {}", term),
            format!("exit expression {}", value),
            format!("exit statement {}", statement),
            format!("exit function {}", function),
            "exit program".to_string(),
        ]
    );
}

#[test]
fn nodes_can_be_changed_in_place() {
    let (_, mut store) = testl::parser::run("f() { g(); }", 1, testl::ast_store::ASTStore::new()).unwrap();
    store.get_function_mut(0).name.inner = "renamed".to_string();
    assert_eq!(store.get_function(0).name.inner, "renamed");
    *store.get_expression_mut(0) = Expression::Literal(Literal::Boolean(true));
    assert_eq!(*store.get_expression(0), Expression::Literal(Literal::Boolean(true)));
    let statement = store.get_function(0).body[0];
    *store.get_statement_mut(statement) = Statement::Break;
    assert_eq!(store.get_statement(statement).inner, Statement::Break);
}

#[test]
fn walks_a_statement_that_refers_to_a_later_one() {
    // A block first holding nothing, then changed to hold a statement stored after it.
    let mut store = ASTStore::new();
    let block = store.statements.add(with_span(Statement::Block(vec![]), DUMMY_SPAN));
    let later = store.statements.add(with_span(Statement::Break, DUMMY_SPAN));
    *store.get_statement_mut(block) = Statement::Block(vec![later]);
    let mut recorder = Recorder::default();
    assert_eq!(store.walk_statement(&mut recorder, block), None);
    assert_eq!(
        recorder.steps,
        vec![
            format!("enter statement {}", block),
            format!("enter statement {}", later),
            format!("exit statement {}", later),
            format!("exit statement {}", block),
        ]
    );
}
