//! What code generation records about the nodes it has handled.
use vstd::prelude::*;

use crate::ast_store::ASTStore;
use crate::codegen::scope::ScopeID;
use crate::types::SimpleType;

verus! {

/// How far code generation has got with a node.
#[derive(Debug, PartialEq, Eq, Copy, Clone, Structural)]
pub enum NodeCodegenStatus {
    NotStarted,
    InProgress,
    Done,
}

impl Default for NodeCodegenStatus {
    fn default() -> (status: Self)
        ensures
            status == NodeCodegenStatus::NotStarted,
    {
        NodeCodegenStatus::NotStarted
    }
}

/// What code generation records about a statement: the scope it opened, if any.
#[derive(Debug, Clone)]
pub struct StatementData {
    pub scope_id: Option<ScopeID>,
}

impl Default for StatementData {
    fn default() -> (data: Self)
        ensures
            data.scope_id is None,
    {
        StatementData { scope_id: None }
    }
}

/// What code generation records about a function: how far it got, the generated function, its
/// return type and the scope of its body.
#[derive(Debug, Clone)]
pub struct FunctionData<V> {
    pub status: NodeCodegenStatus,
    pub ir_value: Option<V>,
    pub return_type: SimpleType,
    pub scope_id: Option<ScopeID>,
}

/// Nothing generated yet; the return type is not known yet.
pub open spec fn fresh_function_data<V>(data: FunctionData<V>) -> bool {
    &&& data.status == NodeCodegenStatus::NotStarted
    &&& data.ir_value is None
    &&& data.return_type == SimpleType::Unknown
    &&& data.scope_id is None
}

impl<V> Default for FunctionData<V> {
    fn default() -> (data: Self)
        ensures
            fresh_function_data(data),
    {
        FunctionData { status: NodeCodegenStatus::NotStarted, ir_value: None, return_type: SimpleType::Unknown, scope_id: None }
    }
}

/// What code generation records about an expression: how far it got, its type and the
/// generated value.
#[derive(Debug, Clone)]
pub struct ExpressionData<V> {
    pub status: NodeCodegenStatus,
    pub type_: SimpleType,
    pub ir_value: Option<V>,
}

/// Nothing generated yet; the type is not known yet.
pub open spec fn fresh_expression_data<V>(data: ExpressionData<V>) -> bool {
    &&& data.status == NodeCodegenStatus::NotStarted
    &&& data.type_ == SimpleType::Unknown
    &&& data.ir_value is None
}

impl<V> Default for ExpressionData<V> {
    fn default() -> (data: Self)
        ensures
            fresh_expression_data(data),
    {
        ExpressionData { status: NodeCodegenStatus::NotStarted, type_: SimpleType::Unknown, ir_value: None }
    }
}

/// What code generation records about each node of a store, by id.
#[derive(Debug)]
pub struct NodeDataStore<F, A> {
    pub functions: Vec<FunctionData<F>>,
    pub expressions: Vec<ExpressionData<A>>,
    pub statements: Vec<StatementData>,
}

impl<F, A> NodeDataStore<F, A> {
    /// A fresh record for every node of `ast_store`.
    pub fn new(ast_store: &ASTStore) -> (data: Self)
        ensures
            data.functions@.len() == ast_store.functions@.len(),
            data.statements@.len() == ast_store.statements@.len(),
            data.expressions@.len() == ast_store.expressions@.len(),
            forall|i: int| 0 <= i < data.functions@.len() ==> fresh_function_data(#[trigger] data.functions@[i]),
            forall|i: int| 0 <= i < data.statements@.len() ==> (#[trigger] data.statements@[i]).scope_id is None,
            forall|i: int| 0 <= i < data.expressions@.len() ==> fresh_expression_data(#[trigger] data.expressions@[i]),
    {
        let mut functions: Vec<FunctionData<F>> = Vec::new();
        let mut k: usize = 0;
        while k < ast_store.functions.len()
            invariant
                k <= ast_store.functions@.len(),
                functions@.len() == k,
                forall|i: int| 0 <= i < k ==> fresh_function_data(#[trigger] functions@[i]),
            decreases ast_store.functions@.len() - k,
        {
            functions.push(FunctionData::default());
            k = k + 1;
        }
        let mut statements: Vec<StatementData> = Vec::new();
        let mut k: usize = 0;
        while k < ast_store.statements.len()
            invariant
                k <= ast_store.statements@.len(),
                statements@.len() == k,
                forall|i: int| 0 <= i < k ==> (#[trigger] statements@[i]).scope_id is None,
            decreases ast_store.statements@.len() - k,
        {
            statements.push(StatementData::default());
            k = k + 1;
        }
        let mut expressions: Vec<ExpressionData<A>> = Vec::new();
        let mut k: usize = 0;
        while k < ast_store.expressions.len()
            invariant
                k <= ast_store.expressions@.len(),
                expressions@.len() == k,
                forall|i: int| 0 <= i < k ==> fresh_expression_data(#[trigger] expressions@[i]),
            decreases ast_store.expressions@.len() - k,
        {
            expressions.push(ExpressionData::default());
            k = k + 1;
        }
        NodeDataStore { functions, expressions, statements }
    }
}

} // verus!
