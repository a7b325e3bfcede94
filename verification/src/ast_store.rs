use vstd::prelude::*;

pub use crate::ast::{ExpressionID, FunctionID, StatementID};
use crate::ast::{BinaryOperator, Case, Expression, Function, Literal, Parameter, Statement, UnaryOperator};
use crate::parser::laws::{closed, lemma_closed_store_can_be_walked, lemma_new_store_closed};
use crate::source::BUILTINS_SOURCE_ID;
use crate::span::{SourceIDSpan, SourceIDSpanned};

verus! {

/// A pair of a value and its id.
pub trait HasID {
    type Value;
    type ID;

    fn id(self) -> Self::ID;

    fn value(self) -> Self::Value;
}

impl<Value, ID: Copy> HasID for (Value, ID) {
    type Value = Value;
    type ID = ID;

    fn id(self) -> (id: ID)
        ensures
            id == self.1,
    {
        self.1
    }

    fn value(self) -> (value: Value)
        ensures
            value == self.0,
    {
        self.0
    }
}

/// A collection that hands out ids for the nodes added to it.
pub trait Store<N> {
    /// The nodes, in order of their ids.
    spec fn nodes(&self) -> Seq<N>;

    /// Adds `node` and returns its id.
    fn add(&mut self, node: N) -> (id: usize)
        requires
            old(self).nodes().len() < usize::MAX,
        ensures
            final(self).nodes() == old(self).nodes().push(node),
            id == old(self).nodes().len();

    /// The node with id `id`.
    fn get_node(&self, id: usize) -> (node: &N)
        requires
            id < self.nodes().len(),
        ensures
            *node == self.nodes()[id as int];

    /// The node with id `id`, for changing it.
    fn get_node_mut(&mut self, id: usize) -> (node: &mut N)
        requires
            id < old(self).nodes().len(),
        ensures
            *node == old(self).nodes()[id as int],
            final(self).nodes() == old(self).nodes().update(id as int, *final(node));
}

impl<N> Store<N> for Vec<N> {
    open spec fn nodes(&self) -> Seq<N> {
        self@
    }

    fn add(&mut self, node: N) -> (id: usize) {
        self.push(node);
        self.len() - 1
    }

    fn get_node(&self, id: usize) -> (node: &N) {
        &self[id]
    }

    fn get_node_mut(&mut self, id: usize) -> (node: &mut N) {
        &mut self[id]
    }
}

/// An expression node with the ids of its children, as the contracts see it.
pub enum ExprNode {
    Typed(Seq<char>, SourceIDSpan, usize),
    Call(usize, Seq<usize>),
    Binop(BinaryOperator, usize, usize),
    Unop(UnaryOperator, usize),
    Identifier(Seq<char>),
    PropertyAccess(usize, Seq<char>, SourceIDSpan),
    Number(Seq<char>),
    Str(Seq<char>),
    Boolean(bool),
    Unit,
}

/// A switch case as the contracts see it: the matched number (with its span), the body, and
/// the span of the case.
pub type CaseNode = (Option<(Seq<char>, SourceIDSpan)>, Seq<usize>, SourceIDSpan);

/// A statement node with the ids of its children, as the contracts see it.
pub enum StmtNode {
    Empty,
    Block(Seq<usize>),
    Expression(usize),
    Let(usize, usize),
    Const(usize, usize),
    Assignment(usize, usize),
    Return(usize),
    While(usize, usize),
    For(usize, usize, usize, usize),
    If(usize, usize),
    IfElse(usize, usize),
    Switch(usize, Seq<CaseNode>),
    Continue,
    Break,
}

/// A parameter as the contracts see it: `(type name and its span, name and its span)`.
pub enum ParamNode {
    Untyped(Seq<char>),
    Typed(Seq<char>, SourceIDSpan, Seq<char>, SourceIDSpan),
}

/// A function node as the contracts see it.
pub struct FuncNode {
    pub name: Seq<char>,
    pub name_span: SourceIDSpan,
    pub return_type: Option<(Seq<char>, SourceIDSpan)>,
    pub params: Seq<(ParamNode, SourceIDSpan)>,
    pub body: Seq<usize>,
}

pub open spec fn expr_node(e: Expression) -> ExprNode {
    match e {
        Expression::TypedExpression(t, inner) => ExprNode::Typed(t.inner@, t.span, inner),
        Expression::Call(c) => ExprNode::Call(c.callee, c.args@),
        Expression::Binop(b) => ExprNode::Binop(b.op, b.lhs, b.rhs),
        Expression::Unop(u) => ExprNode::Unop(u.op, u.term),
        Expression::Identifier(name) => ExprNode::Identifier(name@),
        Expression::PropertyAccess(p) => ExprNode::PropertyAccess(p.dot_subscriptable, p.property_name.inner@, p.property_name.span),
        Expression::Literal(Literal::Number(text)) => ExprNode::Number(text@),
        Expression::Literal(Literal::String(text)) => ExprNode::Str(text@),
        Expression::Literal(Literal::Boolean(b)) => ExprNode::Boolean(b),
        Expression::Literal(Literal::Unit) => ExprNode::Unit,
    }
}

pub open spec fn case_node(c: SourceIDSpanned<Case>) -> CaseNode {
    (
        match c.inner.matched_value {
            Some(v) => Some((v.inner@, v.span)),
            None => None,
        },
        c.inner.body@,
        c.span,
    )
}

pub open spec fn stmt_node(s: Statement) -> StmtNode {
    match s {
        Statement::Empty => StmtNode::Empty,
        Statement::Block(body) => StmtNode::Block(body@),
        Statement::Expression(e) => StmtNode::Expression(e),
        Statement::Let(a, b) => StmtNode::Let(a, b),
        Statement::Const(a, b) => StmtNode::Const(a, b),
        Statement::Assignment(a, b) => StmtNode::Assignment(a, b),
        Statement::Return(e) => StmtNode::Return(e),
        Statement::While { condition, body } => StmtNode::While(condition, body),
        Statement::For { init, condition, step, body } => StmtNode::For(init, condition, step, body),
        Statement::If { condition, body } => StmtNode::If(condition, body),
        Statement::IfElse(a, b) => StmtNode::IfElse(a, b),
        Statement::Switch { matched_value_expression, cases } => StmtNode::Switch(
            matched_value_expression,
            cases@.map_values(|c: SourceIDSpanned<Case>| case_node(c)),
        ),
        Statement::Continue => StmtNode::Continue,
        Statement::Break => StmtNode::Break,
    }
}

pub open spec fn param_node(p: SourceIDSpanned<Parameter>) -> (ParamNode, SourceIDSpan) {
    (
        match p.inner {
            Parameter::Untyped(name) => ParamNode::Untyped(name@),
            Parameter::Typed(t, n) => ParamNode::Typed(t.inner@, t.span, n.inner@, n.span),
        },
        p.span,
    )
}

pub open spec fn func_node(f: Function) -> FuncNode {
    FuncNode {
        name: f.name.inner@,
        name_span: f.name.span,
        return_type: match f.return_type_string {
            Some(t) => Some((t.inner@, t.span)),
            None => None,
        },
        params: f.params@.map_values(|p: SourceIDSpanned<Parameter>| param_node(p)),
        body: f.body@,
    }
}

/// The nodes of a store, as the contracts see them.
pub struct Arena {
    pub functions: Seq<(FuncNode, SourceIDSpan)>,
    pub statements: Seq<(StmtNode, SourceIDSpan)>,
    pub expressions: Seq<(ExprNode, SourceIDSpan)>,
}

/// Holds the nodes of the syntax trees; nodes refer to each other by id.
pub struct ASTStore {
    pub functions: Vec<SourceIDSpanned<Function>>,
    pub statements: Vec<SourceIDSpanned<Statement>>,
    pub expressions: Vec<SourceIDSpanned<Expression>>,
}

/// The span of the literals that every store starts with: the start of the built-in source.
pub open spec fn spec_predefined_literal_span() -> SourceIDSpan {
    SourceIDSpan { context: BUILTINS_SOURCE_ID, start: 0, end: 0 }
}

/// The span of the literals that every store starts with.
#[verifier::when_used_as_spec(spec_predefined_literal_span)]
pub fn predefined_literal_span() -> (span: SourceIDSpan)
    ensures
        span == spec_predefined_literal_span(),
{
    SourceIDSpan { context: BUILTINS_SOURCE_ID, start: 0, end: 0 }
}

/// Id of the predefined `()` literal.
pub const UNIT_LITERAL: ExpressionID = 0;

/// Id of the predefined `true` literal.
pub const TRUE_LITERAL: ExpressionID = 1;

/// Id of the predefined `false` literal.
pub const FALSE_LITERAL: ExpressionID = 2;

/// Id of the predefined literal `1`.
pub const NUMBER_1_LITERAL: ExpressionID = 3;

impl ASTStore {
    /// The nodes of this store, as the contracts see them.
    pub open spec fn arena(&self) -> Arena {
        Arena {
            functions: self.functions@.map_values(|f: SourceIDSpanned<Function>| (func_node(f.inner), f.span)),
            statements: self.statements@.map_values(|s: SourceIDSpanned<Statement>| (stmt_node(s.inner), s.span)),
            expressions: self.expressions@.map_values(|e: SourceIDSpanned<Expression>| (expr_node(e.inner), e.span)),
        }
    }

    /// Creates a store holding only the predefined literals `()`, `true`, `false` and `1`.
    pub fn new() -> (store: ASTStore)
        ensures
            store.arena().functions.len() == 0,
            store.arena().statements.len() == 0,
            store.arena().expressions == seq![
                (ExprNode::Unit, predefined_literal_span()),
                (ExprNode::Boolean(true), predefined_literal_span()),
                (ExprNode::Boolean(false), predefined_literal_span()),
                (ExprNode::Number("1"@), predefined_literal_span()),
            ],
            closed(store.arena()),
            store.well_formed_tree(),
    {
        let mut store = ASTStore { functions: Vec::new(), statements: Vec::new(), expressions: Vec::new() };
        store.expressions.push(SourceIDSpanned { inner: Expression::Literal(Literal::Unit), span: predefined_literal_span() });
        store.expressions.push(SourceIDSpanned { inner: Expression::Literal(Literal::Boolean(true)), span: predefined_literal_span() });
        store.expressions.push(SourceIDSpanned { inner: Expression::Literal(Literal::Boolean(false)), span: predefined_literal_span() });
        store.expressions.push(SourceIDSpanned { inner: Expression::Literal(Literal::Number("1".to_string())), span: predefined_literal_span() });
        assert(store.arena().expressions =~= seq![
            (ExprNode::Unit, predefined_literal_span()),
            (ExprNode::Boolean(true), predefined_literal_span()),
            (ExprNode::Boolean(false), predefined_literal_span()),
            (ExprNode::Number("1"@), predefined_literal_span()),
        ]);
        proof {
            assert(store.arena().statements =~= seq![]);
            assert(store.arena().functions =~= seq![]);
            lemma_new_store_closed(store);
            lemma_closed_store_can_be_walked(store);
        }
        store
    }

    /// Adds an expression node and returns its id.
    pub fn add_expression(&mut self, expression: Expression, span: SourceIDSpan) -> (id: ExpressionID)
        ensures
            id == old(self).arena().expressions.len(),
            final(self).arena() == (Arena {
                expressions: old(self).arena().expressions.push((expr_node(expression), span)),
                ..old(self).arena()
            }),
    {
        self.expressions.push(SourceIDSpanned { inner: expression, span });
        assert(self.arena().expressions =~= old(self).arena().expressions.push((expr_node(expression), span)));
        assert(self.arena().statements =~= old(self).arena().statements);
        assert(self.arena().functions =~= old(self).arena().functions);
        self.expressions.len() - 1
    }

    /// Adds a statement node and returns its id.
    pub fn add_statement(&mut self, statement: Statement, span: SourceIDSpan) -> (id: StatementID)
        ensures
            id == old(self).arena().statements.len(),
            final(self).arena() == (Arena {
                statements: old(self).arena().statements.push((stmt_node(statement), span)),
                ..old(self).arena()
            }),
    {
        self.statements.push(SourceIDSpanned { inner: statement, span });
        assert(self.arena().statements =~= old(self).arena().statements.push((stmt_node(statement), span)));
        assert(self.arena().expressions =~= old(self).arena().expressions);
        assert(self.arena().functions =~= old(self).arena().functions);
        self.statements.len() - 1
    }

    /// Adds a function node and returns its id.
    pub fn add_function(&mut self, function: Function, span: SourceIDSpan) -> (id: FunctionID)
        ensures
            id == old(self).arena().functions.len(),
            final(self).arena() == (Arena {
                functions: old(self).arena().functions.push((func_node(function), span)),
                ..old(self).arena()
            }),
    {
        self.functions.push(SourceIDSpanned { inner: function, span });
        assert(self.arena().functions =~= old(self).arena().functions.push((func_node(function), span)));
        assert(self.arena().expressions =~= old(self).arena().expressions);
        assert(self.arena().statements =~= old(self).arena().statements);
        self.functions.len() - 1
    }

    /// The function with id `id`.
    pub fn get_function(&self, id: FunctionID) -> (function: &Function)
        requires
            id < self.functions@.len(),
        ensures
            *function == self.functions@[id as int].inner,
    {
        &self.functions[id].inner
    }

    /// The function with id `id`, for changing it.
    pub fn get_function_mut(&mut self, id: FunctionID) -> (function: &mut Function)
        requires
            id < old(self).functions@.len(),
        ensures
            *function == old(self).functions@[id as int].inner,
            final(self).functions@ == old(self).functions@.update(
                id as int,
                SourceIDSpanned { inner: *final(function), span: old(self).functions@[id as int].span },
            ),
            final(self).statements == old(self).statements,
            final(self).expressions == old(self).expressions,
    {
        &mut self.functions[id].inner
    }

    /// The statement with id `id`, with its span.
    pub fn get_statement(&self, id: StatementID) -> (statement: &SourceIDSpanned<Statement>)
        requires
            id < self.statements@.len(),
        ensures
            *statement == self.statements@[id as int],
    {
        &self.statements[id]
    }

    /// The statement with id `id`, for changing it.
    pub fn get_statement_mut(&mut self, id: StatementID) -> (statement: &mut Statement)
        requires
            id < old(self).statements@.len(),
        ensures
            *statement == old(self).statements@[id as int].inner,
            final(self).statements@ == old(self).statements@.update(
                id as int,
                SourceIDSpanned { inner: *final(statement), span: old(self).statements@[id as int].span },
            ),
            final(self).functions == old(self).functions,
            final(self).expressions == old(self).expressions,
    {
        &mut self.statements[id].inner
    }

    /// The expression with id `id`.
    pub fn get_expression(&self, id: ExpressionID) -> (expression: &Expression)
        requires
            id < self.expressions@.len(),
        ensures
            *expression == self.expressions@[id as int].inner,
    {
        &self.expressions[id].inner
    }

    /// The expression with id `id`, for changing it.
    pub fn get_expression_mut(&mut self, id: ExpressionID) -> (expression: &mut Expression)
        requires
            id < old(self).expressions@.len(),
        ensures
            *expression == old(self).expressions@[id as int].inner,
            final(self).expressions@ == old(self).expressions@.update(
                id as int,
                SourceIDSpanned { inner: *final(expression), span: old(self).expressions@[id as int].span },
            ),
            final(self).functions == old(self).functions,
            final(self).statements == old(self).statements,
    {
        &mut self.expressions[id].inner
    }
}

} // verus!
