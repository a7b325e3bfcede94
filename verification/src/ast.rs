use vstd::prelude::*;

use crate::span::SourceIDSpanned;
use crate::types::{spec_type_of_name, SimpleType};

verus! {

/// Index of a function in `ASTStore::functions`.
pub type FunctionID = usize;

/// Index of a statement in `ASTStore::statements`.
pub type StatementID = usize;

/// Index of an expression in `ASTStore::expressions`.
pub type ExpressionID = usize;

/// Any node of the syntax tree.
#[derive(Debug, Clone, PartialEq)]
pub enum Node {
    Program(SourceIDSpanned<Program>),
    Function(SourceIDSpanned<Function>),
    Statement(SourceIDSpanned<Statement>),
    Expression(SourceIDSpanned<Expression>),
}

/// A reference to any node of the syntax tree.
#[derive(Debug, Clone, PartialEq)]
pub enum NodeRef<'a> {
    Program(&'a SourceIDSpanned<Program>),
    Function(&'a SourceIDSpanned<Function>),
    Statement(&'a SourceIDSpanned<Statement>),
    Expression(&'a SourceIDSpanned<Expression>),
}

/// A reference, for changing it, to any node of the syntax tree.
#[derive(Debug, PartialEq)]
pub enum NodeRefMut<'a> {
    Program(&'a mut SourceIDSpanned<Program>),
    Function(&'a mut SourceIDSpanned<Function>),
    Statement(&'a mut SourceIDSpanned<Statement>),
    Expression(&'a mut SourceIDSpanned<Expression>),
}

/// A program: the functions of one source.
#[derive(Debug, Clone, PartialEq)]
pub struct Program {
    pub functions: Vec<FunctionID>,
}

/// A function definition.
#[derive(Debug, Clone, PartialEq)]
pub struct Function {
    pub name: SourceIDSpanned<String>,
    pub return_type_string: Option<SourceIDSpanned<String>>,
    pub params: Vec<SourceIDSpanned<Parameter>>,
    pub body: Vec<StatementID>,
}

/// A formal parameter, with or without a type.
#[derive(Debug, Clone, PartialEq)]
pub enum Parameter {
    Untyped(String),
    Typed(SourceIDSpanned<String>, SourceIDSpanned<String>),
}

/// A statement.
#[derive(Debug, Clone, PartialEq)]
pub enum Statement {
    Empty,
    Block(Vec<StatementID>),
    Expression(ExpressionID),
    Let(ExpressionID, ExpressionID),
    Const(ExpressionID, ExpressionID),
    Assignment(ExpressionID, ExpressionID),
    Return(ExpressionID),
    While { condition: ExpressionID, body: StatementID },
    For { init: StatementID, condition: ExpressionID, step: StatementID, body: StatementID },
    If { condition: ExpressionID, body: StatementID },
    IfElse(StatementID, StatementID),
    Switch { matched_value_expression: ExpressionID, cases: Vec<SourceIDSpanned<Case>> },
    Continue,
    Break,
}

/// A case of a switch statement; `matched_value` is `None` for the default case.
#[derive(Debug, Clone, PartialEq)]
pub struct Case {
    pub matched_value: Option<SourceIDSpanned<String>>,
    pub body: Vec<StatementID>,
}

/// An expression.
#[derive(Debug, Clone, PartialEq)]
pub enum Expression {
    TypedExpression(SourceIDSpanned<String>, ExpressionID),
    Call(Call),
    Binop(BinopExpression),
    Unop(UnopExpression),
    Identifier(String),
    PropertyAccess(PropertyAccess),
    Literal(Literal),
}

/// `dot_subscriptable.property_name`
#[derive(Debug, Clone, PartialEq)]
pub struct PropertyAccess {
    pub dot_subscriptable: ExpressionID,
    pub property_name: SourceIDSpanned<String>,
}

/// A literal value.
#[derive(Debug, Clone, PartialEq)]
pub enum Literal {
    Number(String),
    String(String),
    Boolean(bool),
    Unit,
}

/// A call of `callee` with `args`.
#[derive(Debug, Clone, PartialEq)]
pub struct Call {
    pub callee: ExpressionID,
    pub args: Vec<ExpressionID>,
}

/// `lhs op rhs`
#[derive(Debug, Clone, Copy, PartialEq, Eq, Structural)]
pub struct BinopExpression {
    pub op: BinaryOperator,
    pub lhs: ExpressionID,
    pub rhs: ExpressionID,
}

/// The binary operators.
#[derive(Debug, Clone, Copy, PartialEq, Eq, Structural)]
pub enum BinaryOperator {
    Equals,
    GreaterThan,
    LessThan,
    GreaterThanOrEquals,
    LessThanOrEquals,
    NotEquals,
    And,
    Or,
    Mul,
    Div,
    Add,
    Sub,
    Mod,
}

/// `op term`
#[derive(Debug, Clone, Copy, PartialEq, Eq, Structural)]
pub struct UnopExpression {
    pub op: UnaryOperator,
    pub term: ExpressionID,
}

/// The unary operators.
#[derive(Debug, Clone, Copy, PartialEq, Eq, Structural)]
pub enum UnaryOperator {
    UnaryMinus,
    UnaryNot,
}

/// The type of a literal.
pub open spec fn spec_literal_type(literal: Literal) -> SimpleType {
    match literal {
        Literal::Boolean(_) => SimpleType::Boolean,
        Literal::String(_) => SimpleType::String,
        Literal::Number(_) => SimpleType::Int,
        Literal::Unit => SimpleType::Void,
    }
}

impl Literal {
    /// The type of this literal.
    pub fn get_type(&self) -> (t: SimpleType)
        ensures
            t == spec_literal_type(*self),
    {
        match self {
            Literal::Boolean(_) => SimpleType::Boolean,
            Literal::String(_) => SimpleType::String,
            Literal::Number(_) => SimpleType::Int,
            Literal::Unit => SimpleType::Void,
        }
    }
}

/// The type a binary operator produces: comparisons and logic give a boolean, arithmetic an int.
pub open spec fn spec_binop_type(op: BinaryOperator) -> SimpleType {
    match op {
        BinaryOperator::Equals | BinaryOperator::GreaterThan | BinaryOperator::LessThan
        | BinaryOperator::GreaterThanOrEquals | BinaryOperator::LessThanOrEquals
        | BinaryOperator::NotEquals | BinaryOperator::And | BinaryOperator::Or => SimpleType::Boolean,
        BinaryOperator::Mul | BinaryOperator::Div | BinaryOperator::Add | BinaryOperator::Sub
        | BinaryOperator::Mod => SimpleType::Int,
    }
}

impl BinopExpression {
    /// The type this expression produces.
    pub fn get_actual_type(&self) -> (t: SimpleType)
        ensures
            t == spec_binop_type(self.op),
    {
        match self.op {
            BinaryOperator::Equals => SimpleType::Boolean,
            BinaryOperator::GreaterThan => SimpleType::Boolean,
            BinaryOperator::LessThan => SimpleType::Boolean,
            BinaryOperator::GreaterThanOrEquals => SimpleType::Boolean,
            BinaryOperator::LessThanOrEquals => SimpleType::Boolean,
            BinaryOperator::NotEquals => SimpleType::Boolean,
            BinaryOperator::And => SimpleType::Boolean,
            BinaryOperator::Or => SimpleType::Boolean,
            BinaryOperator::Mul => SimpleType::Int,
            BinaryOperator::Div => SimpleType::Int,
            BinaryOperator::Add => SimpleType::Int,
            BinaryOperator::Sub => SimpleType::Int,
            BinaryOperator::Mod => SimpleType::Int,
        }
    }
}

/// The type a unary operator produces.
pub open spec fn spec_unop_type(op: UnaryOperator) -> SimpleType {
    match op {
        UnaryOperator::UnaryMinus => SimpleType::Int,
        UnaryOperator::UnaryNot => SimpleType::Boolean,
    }
}

impl UnopExpression {
    /// The type this expression produces.
    pub fn get_actual_type(&self) -> (t: SimpleType)
        ensures
            t == spec_unop_type(self.op),
    {
        match self.op {
            UnaryOperator::UnaryMinus => SimpleType::Int,
            UnaryOperator::UnaryNot => SimpleType::Boolean,
        }
    }
}

/// The type of an expression as far as it is known without looking at other nodes; a typed
/// expression names its type, which must be a valid type name.
pub open spec fn spec_expression_type(expression: Expression) -> Result<SimpleType, Seq<char>> {
    match expression {
        Expression::TypedExpression(type_string, _) => match spec_type_of_name(type_string.inner@) {
            Some(t) => Ok(t),
            None => Err("invalid type "@ + type_string.inner@),
        },
        Expression::Call(_) => Ok(SimpleType::Unknown),
        Expression::Binop(e) => Ok(spec_binop_type(e.op)),
        Expression::Unop(e) => Ok(spec_unop_type(e.op)),
        Expression::Identifier(_) => Ok(SimpleType::Unknown),
        Expression::PropertyAccess(_) => Ok(SimpleType::Unknown),
        Expression::Literal(literal) => Ok(spec_literal_type(literal)),
    }
}

impl Expression {
    /// The type of this expression, or an error message for an invalid type name.
    pub fn get_actual_type(&self) -> (result: Result<SimpleType, String>)
        ensures
            match result {
                Ok(t) => spec_expression_type(*self) == Ok::<SimpleType, Seq<char>>(t),
                Err(message) => spec_expression_type(*self) == Err::<SimpleType, Seq<char>>(message@),
            },
    {
        match self {
            Expression::TypedExpression(type_string, _expression) => {
                match SimpleType::from_type_string(type_string.inner.as_str()) {
                    Some(t) => Ok(t),
                    None => {
                        let mut message = "invalid type ".to_string();
                        message.append(type_string.inner.as_str());
                        Err(message)
                    },
                }
            },
            Expression::Call(_call) => Ok(SimpleType::Unknown),
            Expression::Binop(expression) => Ok(expression.get_actual_type()),
            Expression::Unop(expression) => Ok(expression.get_actual_type()),
            Expression::Identifier(_value) => Ok(SimpleType::Unknown),
            Expression::PropertyAccess(_) => Ok(SimpleType::Unknown),
            Expression::Literal(literal) => Ok(literal.get_type()),
        }
    }
}

} // verus!
