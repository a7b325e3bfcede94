//! Walks over the syntax tree in a store. A walk shows a visitor each node when it enters it and
//! when it leaves it, children in between and in order, and stops at the first answer.
//!
//! A visitor's contract is stated over two spec functions, `answer` and `next`, which default to
//! a visitor that never answers and never changes. The executable methods have no default
//! bodies: a body that returns `None` meets the contract only where `answer` keeps its default,
//! and a trait's default body is proved once for every implementation. A visitor that answers
//! the same on entering any kind of node implements `MatchingASTVisitor` instead and gets the
//! eight methods from it. A closure is not made a visitor: what it returns is not known to the
//! walk, so no contract could say what a walk with it gives back.
use vstd::prelude::*;

use crate::ast::{Expression, ExpressionID, Function, FunctionID, NodeRef, Program, Statement, StatementID};
use crate::ast_store::ASTStore;
use crate::span::SourceIDSpanned;

verus! {

/// A step of a walk, as the visitor is shown it.
pub enum Visit {
    EnterProgram(SourceIDSpanned<Program>),
    ExitProgram(SourceIDSpanned<Program>),
    EnterFunction(SourceIDSpanned<Function>, FunctionID),
    ExitFunction(SourceIDSpanned<Function>, FunctionID),
    EnterStatement(SourceIDSpanned<Statement>, StatementID),
    ExitStatement(SourceIDSpanned<Statement>, StatementID),
    EnterExpression(SourceIDSpanned<Expression>, ExpressionID),
    ExitExpression(SourceIDSpanned<Expression>, ExpressionID),
    /// The inside of a `switch` statement, which walks do not support: a walk that gets there
    /// does not return.
    Unsupported,
}

/// Something that is shown the nodes of a walk and may answer; the first answer ends the walk.
/// A visitor is described by the answer it gives to a step in its present state and by its
/// state after the step; unless it says otherwise, it never answers and never changes.
pub trait ASTVisitor<R>: Sized {
    open spec fn answer(&self, visit: Visit) -> Option<R> {
        None
    }

    open spec fn next(&self, visit: Visit) -> Self {
        *self
    }

    fn enter_program(&mut self, program: &SourceIDSpanned<Program>) -> (r: Option<R>)
        ensures
            r == old(self).answer(Visit::EnterProgram(*program)),
            *final(self) == old(self).next(Visit::EnterProgram(*program));

    fn enter_function(&mut self, function: (&SourceIDSpanned<Function>, FunctionID)) -> (r: Option<R>)
        ensures
            r == old(self).answer(Visit::EnterFunction(*function.0, function.1)),
            *final(self) == old(self).next(Visit::EnterFunction(*function.0, function.1));

    fn enter_statement(&mut self, statement: (&SourceIDSpanned<Statement>, StatementID)) -> (r: Option<R>)
        ensures
            r == old(self).answer(Visit::EnterStatement(*statement.0, statement.1)),
            *final(self) == old(self).next(Visit::EnterStatement(*statement.0, statement.1));

    fn enter_expression(&mut self, expression: (&SourceIDSpanned<Expression>, ExpressionID)) -> (r: Option<R>)
        ensures
            r == old(self).answer(Visit::EnterExpression(*expression.0, expression.1)),
            *final(self) == old(self).next(Visit::EnterExpression(*expression.0, expression.1));

    fn exit_program(&mut self, program: &SourceIDSpanned<Program>) -> (r: Option<R>)
        ensures
            r == old(self).answer(Visit::ExitProgram(*program)),
            *final(self) == old(self).next(Visit::ExitProgram(*program));

    fn exit_function(&mut self, function: (&SourceIDSpanned<Function>, FunctionID)) -> (r: Option<R>)
        ensures
            r == old(self).answer(Visit::ExitFunction(*function.0, function.1)),
            *final(self) == old(self).next(Visit::ExitFunction(*function.0, function.1));

    fn exit_statement(&mut self, statement: (&SourceIDSpanned<Statement>, StatementID)) -> (r: Option<R>)
        ensures
            r == old(self).answer(Visit::ExitStatement(*statement.0, statement.1)),
            *final(self) == old(self).next(Visit::ExitStatement(*statement.0, statement.1));

    fn exit_expression(&mut self, expression: (&SourceIDSpanned<Expression>, ExpressionID)) -> (r: Option<R>)
        ensures
            r == old(self).answer(Visit::ExitExpression(*expression.0, expression.1)),
            *final(self) == old(self).next(Visit::ExitExpression(*expression.0, expression.1));
}

/// A visitor that is shown each node as it is entered, whatever its kind, and never answers
/// when a node is left. Every such visitor is an `ASTVisitor`. A closure is not one: to walk
/// with a function of the node, wrap it in a type of your own that implements `visit_node` and
/// says in `node_answer` what the function answers.
pub trait MatchingASTVisitor<R>: Sized {
    /// The answer the visitor gives when it is shown `node` in its present state.
    open spec fn node_answer(&self, node: NodeRef) -> Option<R> {
        None
    }

    /// The visitor's state after it is shown `node`.
    open spec fn node_next(&self, node: NodeRef) -> Self {
        *self
    }

    fn visit_node(&mut self, node: NodeRef) -> (r: Option<R>)
        ensures
            r == old(self).node_answer(node),
            *final(self) == old(self).node_next(node);
}

impl<R, T: MatchingASTVisitor<R>> ASTVisitor<R> for T {
    open spec fn answer(&self, visit: Visit) -> Option<R> {
        match visit {
            Visit::EnterProgram(p) => self.node_answer(NodeRef::Program(&p)),
            Visit::EnterFunction(f, _) => self.node_answer(NodeRef::Function(&f)),
            Visit::EnterStatement(s, _) => self.node_answer(NodeRef::Statement(&s)),
            Visit::EnterExpression(e, _) => self.node_answer(NodeRef::Expression(&e)),
            _ => None,
        }
    }

    open spec fn next(&self, visit: Visit) -> Self {
        match visit {
            Visit::EnterProgram(p) => self.node_next(NodeRef::Program(&p)),
            Visit::EnterFunction(f, _) => self.node_next(NodeRef::Function(&f)),
            Visit::EnterStatement(s, _) => self.node_next(NodeRef::Statement(&s)),
            Visit::EnterExpression(e, _) => self.node_next(NodeRef::Expression(&e)),
            _ => *self,
        }
    }

    fn enter_program(&mut self, program: &SourceIDSpanned<Program>) -> (r: Option<R>) {
        self.visit_node(NodeRef::Program(program))
    }

    fn enter_function(&mut self, function: (&SourceIDSpanned<Function>, FunctionID)) -> (r: Option<R>) {
        self.visit_node(NodeRef::Function(function.0))
    }

    fn enter_statement(&mut self, statement: (&SourceIDSpanned<Statement>, StatementID)) -> (r: Option<R>) {
        self.visit_node(NodeRef::Statement(statement.0))
    }

    fn enter_expression(&mut self, expression: (&SourceIDSpanned<Expression>, ExpressionID)) -> (r: Option<R>) {
        self.visit_node(NodeRef::Expression(expression.0))
    }

    fn exit_program(&mut self, program: &SourceIDSpanned<Program>) -> (r: Option<R>) {
        None
    }

    fn exit_function(&mut self, function: (&SourceIDSpanned<Function>, FunctionID)) -> (r: Option<R>) {
        None
    }

    fn exit_statement(&mut self, statement: (&SourceIDSpanned<Statement>, StatementID)) -> (r: Option<R>) {
        None
    }

    fn exit_expression(&mut self, expression: (&SourceIDSpanned<Expression>, ExpressionID)) -> (r: Option<R>) {
        None
    }
}

/// A visitor that can change the nodes it is shown.
pub trait ASTVisitorMut<R> {
    fn visit_program(&mut self, program: &mut SourceIDSpanned<Program>) -> Option<R>;

    fn visit_function(&mut self, function: &mut SourceIDSpanned<Function>) -> Option<R>;

    fn visit_statement(&mut self, statement: &mut SourceIDSpanned<Statement>) -> Option<R>;

    fn visit_expression(&mut self, expression: &mut SourceIDSpanned<Expression>) -> Option<R>;
}

/// Showing `v` the steps `visits` in order until it answers: its state then and its answer,
/// none if it gave none.
pub open spec fn run<R, V: ASTVisitor<R>>(v: V, visits: Seq<Visit>) -> (V, Option<R>)
    decreases visits.len(),
{
    if visits.len() == 0 || visits[0] is Unsupported {
        (v, None)
    } else {
        let answer = v.answer(visits[0]);
        let after = v.next(visits[0]);
        if answer is Some {
            (after, answer)
        } else {
            run(after, visits.drop_first())
        }
    }
}

/// Showing `v` the steps `visits` gets to an unsupported one before `v` answers.
pub open spec fn reaches_unsupported<R, V: ASTVisitor<R>>(v: V, visits: Seq<Visit>) -> bool
    decreases visits.len(),
{
    if visits.len() == 0 {
        false
    } else if visits[0] is Unsupported {
        true
    } else if v.answer(visits[0]) is Some {
        false
    } else {
        reaches_unsupported(v.next(visits[0]), visits.drop_first())
    }
}

/// Running over two parts is running over the first, and over the second if there was no answer.
pub proof fn lemma_run_concat<R, V: ASTVisitor<R>>(v: V, a: Seq<Visit>, b: Seq<Visit>)
    requires
        !reaches_unsupported(v, a),
    ensures
        run(v, a + b) == (if run(v, a).1 is Some { run(v, a) } else { run(run(v, a).0, b) }),
        reaches_unsupported(v, a + b) == (run(v, a).1 is None && reaches_unsupported(run(v, a).0, b)),
    decreases a.len(),
{
    if a.len() > 0 {
        assert((a + b)[0] == a[0]);
        assert((a + b).drop_first() =~= a.drop_first() + b);
        if v.answer(a[0]) is None {
            lemma_run_concat(v.next(a[0]), a.drop_first(), b);
        }
    } else {
        assert(a + b =~= b);
    }
}

/// A child of a statement: a statement or an expression.
#[derive(Clone, Copy)]
pub enum Child {
    Statement(StatementID),
    Expression(ExpressionID),
}

/// The expressions that a walk enters below an expression, in order. The callee of a call is
/// not among them.
pub open spec fn expression_children(e: Expression) -> Seq<ExpressionID> {
    match e {
        Expression::TypedExpression(_, inner) => seq![inner],
        Expression::Call(call) => call.args@,
        Expression::Binop(binop) => seq![binop.lhs, binop.rhs],
        Expression::Unop(unop) => seq![unop.term],
        Expression::Identifier(_) => seq![],
        Expression::PropertyAccess(access) => seq![access.dot_subscriptable],
        Expression::Literal(_) => seq![],
    }
}

/// The nodes that a walk enters below a statement other than a `switch`, in order. The assigned
/// place of a `let`, `const` or assignment is not among them.
pub open spec fn statement_children(s: Statement) -> Seq<Child> {
    match s {
        Statement::Block(ids) => ids@.map_values(|id: StatementID| Child::Statement(id)),
        Statement::Expression(e) => seq![Child::Expression(e)],
        Statement::While { condition, body } => seq![Child::Expression(condition), Child::Statement(body)],
        Statement::For { init, condition, step, body } => seq![
            Child::Statement(init),
            Child::Expression(condition),
            Child::Statement(step),
            Child::Statement(body),
        ],
        Statement::If { condition, body } => seq![Child::Expression(condition), Child::Statement(body)],
        Statement::IfElse(a, b) => seq![Child::Statement(a), Child::Statement(b)],
        Statement::Let(_, e) => seq![Child::Expression(e)],
        Statement::Const(_, e) => seq![Child::Expression(e)],
        Statement::Assignment(_, e) => seq![Child::Expression(e)],
        Statement::Return(e) => seq![Child::Expression(e)],
        _ => seq![],
    }
}

/// The expressions `ids` are all stored before `bound`.
pub open spec fn ids_before(ids: Seq<ExpressionID>, bound: int) -> bool {
    forall|k: int| 0 <= k < ids.len() ==> #[trigger] ids[k] < bound
}

/// The statements among `cs` are stored before `bound`, and the expressions are among the
/// first `n_expressions`.
pub open spec fn children_before(cs: Seq<Child>, bound: int, n_expressions: int) -> bool {
    forall|k: int| 0 <= k < cs.len() ==> match #[trigger] cs[k] {
        Child::Statement(s) => s < bound,
        Child::Expression(e) => e < n_expressions,
    }
}

impl ASTStore {
    /// Every node refers to nodes that exist, and a statement or an expression only to
    /// statements or expressions stored before it: the shape of what a parse leaves in a store.
    pub open spec fn well_formed_tree(&self) -> bool {
        &&& forall|i: int| 0 <= i < self.expressions@.len() ==>
            ids_before(expression_children(#[trigger] self.expressions@[i].inner), i)
        &&& forall|i: int| 0 <= i < self.statements@.len() ==>
            children_before(statement_children(#[trigger] self.statements@[i].inner), i, self.expressions@.len() as int)
        &&& forall|i: int| 0 <= i < self.functions@.len() ==>
            ids_before((#[trigger] self.functions@[i]).inner.body@, self.statements@.len() as int)
    }

    /// Expression `id` and every expression below it exist, at most `depth` levels deep.
    pub open spec fn expression_walkable(self, id: int, depth: nat) -> bool
        decreases depth,
    {
        &&& 0 <= id < self.expressions@.len()
        &&& depth > 0
        &&& forall|k: int| 0 <= k < expression_children(self.expressions@[id].inner).len() ==>
            self.expression_walkable(#[trigger] expression_children(self.expressions@[id].inner)[k] as int, (depth - 1) as nat)
    }

    /// Statement `id` and every node below it that a walk enters exist, at most `depth` levels
    /// deep. A walk does not go inside a `switch`.
    pub open spec fn statement_walkable(self, id: int, depth: nat) -> bool
        decreases depth,
    {
        &&& 0 <= id < self.statements@.len()
        &&& depth > 0
        &&& !(self.statements@[id].inner is Switch) ==>
            forall|k: int| 0 <= k < statement_children(self.statements@[id].inner).len() ==>
                match #[trigger] statement_children(self.statements@[id].inner)[k] {
                    Child::Statement(s) => self.statement_walkable(s as int, (depth - 1) as nat),
                    Child::Expression(e) => self.expression_walkable(e as int, (depth - 1) as nat),
                }
    }

    /// Expression `id` can be walked: it and every expression below it exist, with no cycle.
    pub open spec fn expression_in_store(self, id: int) -> bool {
        exists|depth: nat| self.expression_walkable(id, depth)
    }

    /// Statement `id` can be walked: it and every node below it that a walk enters exist, with no
    /// cycle.
    pub open spec fn statement_in_store(self, id: int) -> bool {
        exists|depth: nat| self.statement_walkable(id, depth)
    }

    /// Function `id` can be walked: it exists and so do the statements of its body.
    pub open spec fn function_in_store(self, id: int) -> bool {
        &&& 0 <= id < self.functions@.len()
        &&& forall|k: int| 0 <= k < self.functions@[id].inner.body@.len() ==>
            self.statement_in_store(#[trigger] self.functions@[id].inner.body@[k] as int)
    }

    /// A depth to which expression `id` can be walked.
    pub open spec fn expression_depth(self, id: int) -> nat {
        choose|depth: nat| self.expression_walkable(id, depth)
    }

    /// A depth to which statement `id` can be walked.
    pub open spec fn statement_depth(self, id: int) -> nat {
        choose|depth: nat| self.statement_walkable(id, depth)
    }

    /// The steps of walking expression `id` down to `depth` levels: entering it, its children,
    /// leaving it.
    pub open spec fn expression_visits_at(self, id: int, depth: nat) -> Seq<Visit>
        decreases depth, 0nat, 0nat,
    {
        if 0 <= id < self.expressions@.len() && depth > 0 {
            let e = self.expressions@[id];
            seq![Visit::EnterExpression(e, id as usize)]
                + self.expression_list_visits_at(expression_children(e.inner), (depth - 1) as nat)
                + seq![Visit::ExitExpression(e, id as usize)]
        } else {
            seq![]
        }
    }

    /// The steps of walking the expressions `ids` down to `depth` levels, one after another.
    pub open spec fn expression_list_visits_at(self, ids: Seq<ExpressionID>, depth: nat) -> Seq<Visit>
        decreases depth, 1nat, ids.len(),
    {
        if ids.len() == 0 {
            seq![]
        } else {
            self.expression_list_visits_at(ids.drop_last(), depth) + self.expression_visits_at(ids.last() as int, depth)
        }
    }

    /// The steps of walking statement `id` down to `depth` levels: entering it, its children,
    /// leaving it. Inside a `switch`, the walk does not go on.
    pub open spec fn statement_visits_at(self, id: int, depth: nat) -> Seq<Visit>
        decreases depth, 0nat, 0nat,
    {
        if 0 <= id < self.statements@.len() && depth > 0 {
            let s = self.statements@[id];
            seq![Visit::EnterStatement(s, id as usize)] + if s.inner is Switch {
                seq![Visit::Unsupported]
            } else {
                self.children_visits_at(statement_children(s.inner), (depth - 1) as nat)
                    + seq![Visit::ExitStatement(s, id as usize)]
            }
        } else {
            seq![]
        }
    }

    /// The steps of walking the children `cs` of a statement down to `depth` levels, one after
    /// another.
    pub open spec fn children_visits_at(self, cs: Seq<Child>, depth: nat) -> Seq<Visit>
        decreases depth, 1nat, cs.len(),
    {
        if cs.len() == 0 {
            seq![]
        } else {
            self.children_visits_at(cs.drop_last(), depth) + match cs.last() {
                Child::Statement(s) => self.statement_visits_at(s as int, depth),
                Child::Expression(e) => self.expression_visits_at(e as int, depth),
            }
        }
    }

    /// The steps of walking expression `id`.
    pub open spec fn expression_visits(self, id: int) -> Seq<Visit> {
        self.expression_visits_at(id, self.expression_depth(id))
    }

    /// The steps of walking statement `id`.
    pub open spec fn statement_visits(self, id: int) -> Seq<Visit> {
        self.statement_visits_at(id, self.statement_depth(id))
    }

    /// The steps of walking the statements `ids` one after another.
    pub open spec fn body_visits(self, ids: Seq<StatementID>) -> Seq<Visit>
        decreases ids.len(),
    {
        if ids.len() == 0 {
            seq![]
        } else {
            self.body_visits(ids.drop_last()) + self.statement_visits(ids.last() as int)
        }
    }

    /// The steps of walking function `id`: entering it, its body, leaving it.
    pub open spec fn function_visits(self, id: int) -> Seq<Visit> {
        if 0 <= id < self.functions@.len() {
            let f = self.functions@[id];
            seq![Visit::EnterFunction(f, id as usize)]
                + self.body_visits(f.inner.body@)
                + seq![Visit::ExitFunction(f, id as usize)]
        } else {
            seq![]
        }
    }

    /// The steps of walking the functions `ids` one after another.
    pub open spec fn function_list_visits(self, ids: Seq<FunctionID>) -> Seq<Visit>
        decreases ids.len(),
    {
        if ids.len() == 0 {
            seq![]
        } else {
            self.function_list_visits(ids.drop_last()) + self.function_visits(ids.last() as int)
        }
    }

    /// The steps of walking a program: its functions, then leaving it.
    pub open spec fn program_visits(self, program: SourceIDSpanned<Program>) -> Seq<Visit> {
        self.function_list_visits(program.inner.functions@) + seq![Visit::ExitProgram(program)]
    }

    proof fn lemma_expression_deeper(self, id: int, depth: nat, deeper: nat)
        requires
            self.expression_walkable(id, depth),
            depth <= deeper,
        ensures
            self.expression_walkable(id, deeper),
        decreases depth,
    {
        let cs = expression_children(self.expressions@[id].inner);
        assert forall|k: int| 0 <= k < cs.len() implies self.expression_walkable(#[trigger] cs[k] as int, (deeper - 1) as nat) by {
            self.lemma_expression_deeper(cs[k] as int, (depth - 1) as nat, (deeper - 1) as nat);
        }
    }

    proof fn lemma_statement_deeper(self, id: int, depth: nat, deeper: nat)
        requires
            self.statement_walkable(id, depth),
            depth <= deeper,
        ensures
            self.statement_walkable(id, deeper),
        decreases depth,
    {
        let s = self.statements@[id].inner;
        let cs = statement_children(s);
        if !(s is Switch) {
            assert forall|k: int| 0 <= k < cs.len() implies match #[trigger] cs[k] {
                Child::Statement(c) => self.statement_walkable(c as int, (deeper - 1) as nat),
                Child::Expression(e) => self.expression_walkable(e as int, (deeper - 1) as nat),
            } by {
                match cs[k] {
                    Child::Statement(c) => self.lemma_statement_deeper(c as int, (depth - 1) as nat, (deeper - 1) as nat),
                    Child::Expression(e) => self.lemma_expression_deeper(e as int, (depth - 1) as nat, (deeper - 1) as nat),
                }
            }
        }
    }

    proof fn lemma_well_formed_expression(self, id: int)
        requires
            self.well_formed_tree(),
            0 <= id < self.expressions@.len(),
        ensures
            self.expression_walkable(id, (id + 1) as nat),
        decreases id,
    {
        let cs = expression_children(self.expressions@[id].inner);
        assert(ids_before(cs, id));
        assert forall|k: int| 0 <= k < cs.len() implies self.expression_walkable(#[trigger] cs[k] as int, id as nat) by {
            assert(cs[k] < id);
            self.lemma_well_formed_expression(cs[k] as int);
            self.lemma_expression_deeper(cs[k] as int, (cs[k] + 1) as nat, id as nat);
        }
    }

    proof fn lemma_well_formed_statement(self, id: int)
        requires
            self.well_formed_tree(),
            0 <= id < self.statements@.len(),
        ensures
            self.statement_walkable(id, (id + 1 + self.expressions@.len()) as nat),
        decreases id,
    {
        let n = self.expressions@.len() as int;
        let cs = statement_children(self.statements@[id].inner);
        assert(children_before(cs, id, n));
        assert forall|k: int| 0 <= k < cs.len() implies match #[trigger] cs[k] {
            Child::Statement(c) => self.statement_walkable(c as int, (id + n) as nat),
            Child::Expression(e) => self.expression_walkable(e as int, (id + n) as nat),
        } by {
            match cs[k] {
                Child::Statement(c) => {
                    self.lemma_well_formed_statement(c as int);
                    self.lemma_statement_deeper(c as int, (c + 1 + n) as nat, (id + n) as nat);
                },
                Child::Expression(e) => {
                    self.lemma_well_formed_expression(e as int);
                    self.lemma_expression_deeper(e as int, (e + 1) as nat, (id + n) as nat);
                },
            }
        }
    }

    /// In a well-formed tree every node can be walked.
    pub proof fn lemma_well_formed_tree_can_be_walked(self)
        requires
            self.well_formed_tree(),
        ensures
            forall|id: int| 0 <= id < self.expressions@.len() ==> #[trigger] self.expression_in_store(id),
            forall|id: int| 0 <= id < self.statements@.len() ==> #[trigger] self.statement_in_store(id),
            forall|id: int| 0 <= id < self.functions@.len() ==> #[trigger] self.function_in_store(id),
    {
        assert forall|id: int| 0 <= id < self.expressions@.len() implies #[trigger] self.expression_in_store(id) by {
            self.lemma_well_formed_expression(id);
        }
        assert forall|id: int| 0 <= id < self.statements@.len() implies #[trigger] self.statement_in_store(id) by {
            self.lemma_well_formed_statement(id);
        }
        assert forall|id: int| 0 <= id < self.functions@.len() implies #[trigger] self.function_in_store(id) by {
            let body = self.functions@[id].inner.body@;
            assert(ids_before(body, self.statements@.len() as int));
            assert forall|k: int| 0 <= k < body.len() implies self.statement_in_store(#[trigger] body[k] as int) by {
                assert(body[k] < self.statements@.len());
                self.lemma_well_formed_statement(body[k] as int);
            }
        }
    }
}

/// Showing one supported step.
pub proof fn lemma_run_single<R, V: ASTVisitor<R>>(v: V, visit: Visit)
    requires
        !(visit is Unsupported),
    ensures
        run(v, seq![visit]) == (v.next(visit), v.answer(visit)),
        !reaches_unsupported(v, seq![visit]),
{
    assert(seq![visit].drop_first() =~= Seq::<Visit>::empty());
    reveal_with_fuel(run, 2);
    reveal_with_fuel(reaches_unsupported, 2);
}

/// An answer within the first part ends the walk there; getting to an unsupported step within
/// the first part stops it there too.
pub proof fn lemma_reaches_prefix<R, V: ASTVisitor<R>>(v: V, a: Seq<Visit>, b: Seq<Visit>)
    ensures
        reaches_unsupported(v, a) ==> reaches_unsupported(v, a + b),
    decreases a.len(),
{
    if a.len() > 0 {
        assert((a + b)[0] == a[0]);
        assert((a + b).drop_first() =~= a.drop_first() + b);
        if !(a[0] is Unsupported) && v.answer(a[0]) is None {
            lemma_reaches_prefix(v.next(a[0]), a.drop_first(), b);
        }
    }
}

/// One step of a walk over parts `prefix`, `item`, `rest` that meets no unsupported step: the
/// walk over `item` starts where the walk over `prefix` ended and meets none either, and walking
/// `prefix + item` is walking `prefix` and then `item`.
proof fn lemma_walk_step<R, V: ASTVisitor<R>>(v: V, prefix: Seq<Visit>, item: Seq<Visit>, rest: Seq<Visit>)
    requires
        !reaches_unsupported(v, prefix),
        run(v, prefix).1 is None,
        !reaches_unsupported(v, prefix + (item + rest)),
    ensures
        !reaches_unsupported(run(v, prefix).0, item),
        !reaches_unsupported(v, prefix + item),
        run(v, prefix + item) == run(run(v, prefix).0, item),
{
    lemma_run_concat(v, prefix, item + rest);
    lemma_reaches_prefix(run(v, prefix).0, item, rest);
    lemma_run_concat(v, prefix, item);
}

/// A walk that answers within `prefix` answers the same on anything that starts with `prefix`.
proof fn lemma_walk_answered<R, V: ASTVisitor<R>>(v: V, prefix: Seq<Visit>, rest: Seq<Visit>)
    requires
        !reaches_unsupported(v, prefix),
        run(v, prefix).1 is Some,
    ensures
        run(v, prefix + rest) == run(v, prefix),
{
    lemma_run_concat(v, prefix, rest);
}

impl ASTStore {
    proof fn lemma_expression_list_prefix(self, ids: Seq<ExpressionID>, depth: nat, j: int) -> (rest: Seq<Visit>)
        requires
            0 <= j <= ids.len(),
        ensures
            self.expression_list_visits_at(ids, depth) == self.expression_list_visits_at(ids.take(j), depth) + rest,
        decreases ids.len() - j,
    {
        if j == ids.len() {
            assert(ids.take(j) =~= ids);
            assert(self.expression_list_visits_at(ids, depth) + seq![] =~= self.expression_list_visits_at(ids, depth));
            seq![]
        } else {
            let rest1 = self.lemma_expression_list_prefix(ids, depth, j + 1);
            assert(ids.take(j + 1).drop_last() =~= ids.take(j));
            let item = self.expression_visits_at(ids[j] as int, depth);
            assert(self.expression_list_visits_at(ids.take(j + 1), depth) == self.expression_list_visits_at(ids.take(j), depth) + item);
            assert(self.expression_list_visits_at(ids, depth) =~= self.expression_list_visits_at(ids.take(j), depth) + (item + rest1));
            item + rest1
        }
    }

    proof fn lemma_children_prefix(self, cs: Seq<Child>, depth: nat, j: int) -> (rest: Seq<Visit>)
        requires
            0 <= j <= cs.len(),
        ensures
            self.children_visits_at(cs, depth) == self.children_visits_at(cs.take(j), depth) + rest,
        decreases cs.len() - j,
    {
        if j == cs.len() {
            assert(cs.take(j) =~= cs);
            assert(self.children_visits_at(cs, depth) + seq![] =~= self.children_visits_at(cs, depth));
            seq![]
        } else {
            let rest1 = self.lemma_children_prefix(cs, depth, j + 1);
            assert(cs.take(j + 1).drop_last() =~= cs.take(j));
            let item = match cs[j] {
                Child::Statement(s) => self.statement_visits_at(s as int, depth),
                Child::Expression(e) => self.expression_visits_at(e as int, depth),
            };
            assert(self.children_visits_at(cs.take(j + 1), depth) == self.children_visits_at(cs.take(j), depth) + item);
            assert(self.children_visits_at(cs, depth) =~= self.children_visits_at(cs.take(j), depth) + (item + rest1));
            item + rest1
        }
    }

    proof fn lemma_body_prefix(self, ids: Seq<StatementID>, j: int) -> (rest: Seq<Visit>)
        requires
            0 <= j <= ids.len(),
        ensures
            self.body_visits(ids) == self.body_visits(ids.take(j)) + rest,
        decreases ids.len() - j,
    {
        if j == ids.len() {
            assert(ids.take(j) =~= ids);
            assert(self.body_visits(ids) + seq![] =~= self.body_visits(ids));
            seq![]
        } else {
            let rest1 = self.lemma_body_prefix(ids, j + 1);
            assert(ids.take(j + 1).drop_last() =~= ids.take(j));
            let item = self.statement_visits(ids[j] as int);
            assert(self.body_visits(ids.take(j + 1)) == self.body_visits(ids.take(j)) + item);
            assert(self.body_visits(ids) =~= self.body_visits(ids.take(j)) + (item + rest1));
            item + rest1
        }
    }

    proof fn lemma_function_list_prefix(self, ids: Seq<FunctionID>, j: int) -> (rest: Seq<Visit>)
        requires
            0 <= j <= ids.len(),
        ensures
            self.function_list_visits(ids) == self.function_list_visits(ids.take(j)) + rest,
        decreases ids.len() - j,
    {
        if j == ids.len() {
            assert(ids.take(j) =~= ids);
            assert(self.function_list_visits(ids) + seq![] =~= self.function_list_visits(ids));
            seq![]
        } else {
            let rest1 = self.lemma_function_list_prefix(ids, j + 1);
            assert(ids.take(j + 1).drop_last() =~= ids.take(j));
            let item = self.function_visits(ids[j] as int);
            assert(self.function_list_visits(ids.take(j + 1)) == self.function_list_visits(ids.take(j)) + item);
            assert(self.function_list_visits(ids) =~= self.function_list_visits(ids.take(j)) + (item + rest1));
            item + rest1
        }
    }
}

impl ASTStore {
    proof fn lemma_expression_same_steps(self, id: int, a: nat, b: nat)
        requires
            self.expression_walkable(id, a),
            self.expression_walkable(id, b),
        ensures
            self.expression_visits_at(id, a) == self.expression_visits_at(id, b),
        decreases a, 0nat, 0nat,
    {
        let cs = expression_children(self.expressions@[id].inner);
        self.lemma_expression_list_same_steps(cs, (a - 1) as nat, (b - 1) as nat);
    }

    proof fn lemma_expression_list_same_steps(self, ids: Seq<ExpressionID>, a: nat, b: nat)
        requires
            forall|k: int| 0 <= k < ids.len() ==> self.expression_walkable(#[trigger] ids[k] as int, a),
            forall|k: int| 0 <= k < ids.len() ==> self.expression_walkable(#[trigger] ids[k] as int, b),
        ensures
            self.expression_list_visits_at(ids, a) == self.expression_list_visits_at(ids, b),
        decreases a, 1nat, ids.len(),
    {
        if ids.len() > 0 {
            let init = ids.drop_last();
            assert forall|k: int| 0 <= k < init.len() implies self.expression_walkable(#[trigger] init[k] as int, a)
                && self.expression_walkable(init[k] as int, b) by {
                assert(init[k] == ids[k]);
            }
            self.lemma_expression_list_same_steps(init, a, b);
            assert(self.expression_walkable(ids[ids.len() - 1] as int, a));
            assert(self.expression_walkable(ids[ids.len() - 1] as int, b));
            self.lemma_expression_same_steps(ids.last() as int, a, b);
        }
    }

    proof fn lemma_statement_same_steps(self, id: int, a: nat, b: nat)
        requires
            self.statement_walkable(id, a),
            self.statement_walkable(id, b),
        ensures
            self.statement_visits_at(id, a) == self.statement_visits_at(id, b),
        decreases a, 0nat, 0nat,
    {
        let s = self.statements@[id].inner;
        if !(s is Switch) {
            self.lemma_children_same_steps(statement_children(s), (a - 1) as nat, (b - 1) as nat);
        }
    }

    proof fn lemma_children_same_steps(self, cs: Seq<Child>, a: nat, b: nat)
        requires
            forall|k: int| 0 <= k < cs.len() ==> match #[trigger] cs[k] {
                Child::Statement(s) => self.statement_walkable(s as int, a) && self.statement_walkable(s as int, b),
                Child::Expression(e) => self.expression_walkable(e as int, a) && self.expression_walkable(e as int, b),
            },
        ensures
            self.children_visits_at(cs, a) == self.children_visits_at(cs, b),
        decreases a, 1nat, cs.len(),
    {
        if cs.len() > 0 {
            let init = cs.drop_last();
            assert forall|k: int| 0 <= k < init.len() implies match #[trigger] init[k] {
                Child::Statement(s) => self.statement_walkable(s as int, a) && self.statement_walkable(s as int, b),
                Child::Expression(e) => self.expression_walkable(e as int, a) && self.expression_walkable(e as int, b),
            } by {
                assert(init[k] == cs[k]);
            }
            self.lemma_children_same_steps(init, a, b);
            let last = cs[cs.len() - 1];
            match last {
                Child::Statement(s) => self.lemma_statement_same_steps(s as int, a, b),
                Child::Expression(e) => self.lemma_expression_same_steps(e as int, a, b),
            }
        }
    }

    /// The steps of walking a node do not depend on the depth they are taken to, as long as the
    /// node can be walked to that depth.
    pub proof fn lemma_steps_do_not_depend_on_depth(self, id: int, a: nat, b: nat)
        ensures
            self.expression_walkable(id, a) && self.expression_walkable(id, b)
                ==> self.expression_visits_at(id, a) == self.expression_visits_at(id, b),
            self.statement_walkable(id, a) && self.statement_walkable(id, b)
                ==> self.statement_visits_at(id, a) == self.statement_visits_at(id, b),
    {
        if self.expression_walkable(id, a) && self.expression_walkable(id, b) {
            self.lemma_expression_same_steps(id, a, b);
        }
        if self.statement_walkable(id, a) && self.statement_walkable(id, b) {
            self.lemma_statement_same_steps(id, a, b);
        }
    }
}

impl ASTStore {
    /// The steps of walking the statements `ids` one after another, each down to `depth` levels.
    pub open spec fn statement_list_visits_at(self, ids: Seq<StatementID>, depth: nat) -> Seq<Visit>
        decreases ids.len(),
    {
        if ids.len() == 0 {
            seq![]
        } else {
            self.statement_list_visits_at(ids.drop_last(), depth) + self.statement_visits_at(ids.last() as int, depth)
        }
    }

    proof fn lemma_block_children(self, ids: Seq<StatementID>, depth: nat)
        ensures
            self.children_visits_at(ids.map_values(|s: StatementID| Child::Statement(s)), depth)
                == self.statement_list_visits_at(ids, depth),
        decreases ids.len(),
    {
        let cs = ids.map_values(|s: StatementID| Child::Statement(s));
        if ids.len() > 0 {
            self.lemma_block_children(ids.drop_last(), depth);
            assert(cs.drop_last() =~= ids.drop_last().map_values(|s: StatementID| Child::Statement(s)));
            assert(cs.last() == Child::Statement(ids.last()));
        } else {
            assert(cs.len() == 0);
        }
    }

    /// A walk enters a statement, walks what is below it in source order, and leaves it: an
    /// `if`-`else` its `if` part and then its `else` part, a loop or an `if` its condition and
    /// then its body, a `for` its start, condition, step and body, a block its statements in
    /// order, a `let`, `const`, assignment, `return` or expression statement only its value; it
    /// does not go inside a `switch`.
    pub proof fn law_statement_walk_order(self, id: int, depth: nat)
        requires
            self.statement_walkable(id, depth),
        ensures
            ({
                let s = self.statements@[id];
                let d = (depth - 1) as nat;
                let enter = seq![Visit::EnterStatement(s, id as usize)];
                let exit = seq![Visit::ExitStatement(s, id as usize)];
                let steps = self.statement_visits_at(id, depth);
                &&& s.inner matches Statement::IfElse(a, b) ==>
                    steps == enter + self.statement_visits_at(a as int, d) + self.statement_visits_at(b as int, d) + exit
                &&& s.inner matches Statement::While { condition, body } ==>
                    steps == enter + self.expression_visits_at(condition as int, d) + self.statement_visits_at(body as int, d) + exit
                &&& s.inner matches Statement::If { condition, body } ==>
                    steps == enter + self.expression_visits_at(condition as int, d) + self.statement_visits_at(body as int, d) + exit
                &&& s.inner matches Statement::For { init, condition, step, body } ==>
                    steps == enter + self.statement_visits_at(init as int, d) + self.expression_visits_at(condition as int, d)
                        + self.statement_visits_at(step as int, d) + self.statement_visits_at(body as int, d) + exit
                &&& s.inner matches Statement::Block(ids) ==> steps == enter + self.statement_list_visits_at(ids@, d) + exit
                &&& s.inner matches Statement::Expression(e) ==> steps == enter + self.expression_visits_at(e as int, d) + exit
                &&& s.inner matches Statement::Return(e) ==> steps == enter + self.expression_visits_at(e as int, d) + exit
                &&& s.inner matches Statement::Let(_, e) ==> steps == enter + self.expression_visits_at(e as int, d) + exit
                &&& s.inner matches Statement::Const(_, e) ==> steps == enter + self.expression_visits_at(e as int, d) + exit
                &&& s.inner matches Statement::Assignment(_, e) ==> steps == enter + self.expression_visits_at(e as int, d) + exit
                &&& (s.inner is Empty || s.inner is Break || s.inner is Continue) ==> steps == enter + exit
                &&& s.inner is Switch ==> steps == enter + seq![Visit::Unsupported]
            }),
    {
        let s = self.statements@[id];
        let d = (depth - 1) as nat;
        let cs = statement_children(s.inner);
        let enter = seq![Visit::EnterStatement(s, id as usize)];
        let exit = seq![Visit::ExitStatement(s, id as usize)];
        let below = self.children_visits_at(cs, d);
        if !(s.inner is Switch) {
            assert(self.statement_visits_at(id, depth) =~= enter + below + exit);
        }
        reveal_with_fuel(ASTStore::children_visits_at, 5);
        match s.inner {
            Statement::Block(ids) => {
                self.lemma_block_children(ids@, d);
            },
            Statement::IfElse(a, b) => {
                assert(cs.drop_last() =~= seq![Child::Statement(a)]);
                assert(seq![Child::Statement(a)].drop_last() =~= Seq::<Child>::empty());
                assert(below =~= self.statement_visits_at(a as int, d) + self.statement_visits_at(b as int, d));
            },
            Statement::While { condition, body } => {
                assert(cs.drop_last() =~= seq![Child::Expression(condition)]);
                assert(seq![Child::Expression(condition)].drop_last() =~= Seq::<Child>::empty());
                assert(below =~= self.expression_visits_at(condition as int, d) + self.statement_visits_at(body as int, d));
            },
            Statement::If { condition, body } => {
                assert(cs.drop_last() =~= seq![Child::Expression(condition)]);
                assert(seq![Child::Expression(condition)].drop_last() =~= Seq::<Child>::empty());
                assert(below =~= self.expression_visits_at(condition as int, d) + self.statement_visits_at(body as int, d));
            },
            Statement::For { init, condition, step, body } => {
                let c3 = seq![Child::Statement(init), Child::Expression(condition), Child::Statement(step)];
                let c2 = seq![Child::Statement(init), Child::Expression(condition)];
                let c1 = seq![Child::Statement(init)];
                assert(cs.drop_last() =~= c3);
                assert(c3.drop_last() =~= c2);
                assert(c2.drop_last() =~= c1);
                assert(c1.drop_last() =~= Seq::<Child>::empty());
                assert(below =~= self.statement_visits_at(init as int, d) + self.expression_visits_at(condition as int, d)
                    + self.statement_visits_at(step as int, d) + self.statement_visits_at(body as int, d));
            },
            Statement::Expression(e) | Statement::Return(e) | Statement::Let(_, e) | Statement::Const(_, e)
            | Statement::Assignment(_, e) => {
                assert(cs.drop_last() =~= Seq::<Child>::empty());
                assert(below =~= self.expression_visits_at(e as int, d));
            },
            Statement::Empty | Statement::Break | Statement::Continue => {
                assert(below =~= Seq::<Visit>::empty());
                assert(enter + below + exit =~= enter + exit);
            },
            _ => {},
        }
    }

    /// A walk enters an expression, walks the expressions below it in source order, and leaves
    /// it: a binary expression its left operand and then its right one, a call its arguments in
    /// order (not its callee), a unary, typed or property expression its one operand.
    pub proof fn law_expression_walk_order(self, id: int, depth: nat)
        requires
            self.expression_walkable(id, depth),
        ensures
            ({
                let e = self.expressions@[id];
                let d = (depth - 1) as nat;
                let enter = seq![Visit::EnterExpression(e, id as usize)];
                let exit = seq![Visit::ExitExpression(e, id as usize)];
                let steps = self.expression_visits_at(id, depth);
                &&& e.inner matches Expression::Binop(b) ==>
                    steps == enter + self.expression_visits_at(b.lhs as int, d) + self.expression_visits_at(b.rhs as int, d) + exit
                &&& e.inner matches Expression::Call(c) ==> steps == enter + self.expression_list_visits_at(c.args@, d) + exit
                &&& e.inner matches Expression::Unop(u) ==> steps == enter + self.expression_visits_at(u.term as int, d) + exit
                &&& e.inner matches Expression::TypedExpression(_, inner) ==> steps == enter + self.expression_visits_at(inner as int, d) + exit
                &&& e.inner matches Expression::PropertyAccess(a) ==>
                    steps == enter + self.expression_visits_at(a.dot_subscriptable as int, d) + exit
                &&& (e.inner is Identifier || e.inner is Literal) ==> steps == enter + exit
            }),
    {
        let e = self.expressions@[id];
        let d = (depth - 1) as nat;
        let cs = expression_children(e.inner);
        let enter = seq![Visit::EnterExpression(e, id as usize)];
        let exit = seq![Visit::ExitExpression(e, id as usize)];
        let below = self.expression_list_visits_at(cs, d);
        assert(self.expression_visits_at(id, depth) =~= enter + below + exit);
        reveal_with_fuel(ASTStore::expression_list_visits_at, 3);
        match e.inner {
            Expression::Binop(b) => {
                assert(cs.drop_last() =~= seq![b.lhs]);
                assert(seq![b.lhs].drop_last() =~= Seq::<ExpressionID>::empty());
                assert(below =~= self.expression_visits_at(b.lhs as int, d) + self.expression_visits_at(b.rhs as int, d));
            },
            Expression::Unop(u) => {
                assert(cs.drop_last() =~= Seq::<ExpressionID>::empty());
                assert(below =~= self.expression_visits_at(u.term as int, d));
            },
            Expression::TypedExpression(_, inner) => {
                assert(cs.drop_last() =~= Seq::<ExpressionID>::empty());
                assert(below =~= self.expression_visits_at(inner as int, d));
            },
            Expression::PropertyAccess(a) => {
                assert(cs.drop_last() =~= Seq::<ExpressionID>::empty());
                assert(below =~= self.expression_visits_at(a.dot_subscriptable as int, d));
            },
            Expression::Identifier(_) | Expression::Literal(_) => {
                assert(below =~= Seq::<Visit>::empty());
                assert(enter + below + exit =~= enter + exit);
            },
            _ => {},
        }
    }
}

/// The expressions that a walk enters below `e`.
fn expression_child_ids(e: &Expression) -> (ids: Vec<ExpressionID>)
    ensures
        ids@ == expression_children(*e),
{
    match e {
        Expression::TypedExpression(_, inner) => vec![*inner],
        Expression::Call(call) => {
            let mut ids = Vec::new();
            let mut k: usize = 0;
            while k < call.args.len()
                invariant
                    k <= call.args@.len(),
                    ids@ == call.args@.take(k as int),
                decreases call.args@.len() - k,
            {
                ids.push(call.args[k]);
                k = k + 1;
                assert(ids@ =~= call.args@.take(k as int));
            }
            assert(call.args@.take(k as int) =~= call.args@);
            ids
        },
        Expression::Binop(binop) => vec![binop.lhs, binop.rhs],
        Expression::Unop(unop) => vec![unop.term],
        Expression::Identifier(_) => Vec::new(),
        Expression::PropertyAccess(access) => vec![access.dot_subscriptable],
        Expression::Literal(_) => Vec::new(),
    }
}

/// The nodes that a walk enters below `s`, which is not a `switch`.
fn statement_child_list(s: &Statement) -> (cs: Vec<Child>)
    ensures
        cs@ == statement_children(*s),
{
    match s {
        Statement::Block(ids) => {
            let mut cs = Vec::new();
            let mut k: usize = 0;
            while k < ids.len()
                invariant
                    k <= ids@.len(),
                    cs@ == ids@.take(k as int).map_values(|id: StatementID| Child::Statement(id)),
                decreases ids@.len() - k,
            {
                cs.push(Child::Statement(ids[k]));
                k = k + 1;
                assert(cs@ =~= ids@.take(k as int).map_values(|id: StatementID| Child::Statement(id)));
            }
            assert(ids@.take(k as int) =~= ids@);
            cs
        },
        Statement::Expression(e) => vec![Child::Expression(*e)],
        Statement::While { condition, body } => vec![Child::Expression(*condition), Child::Statement(*body)],
        Statement::For { init, condition, step, body } => vec![
            Child::Statement(*init),
            Child::Expression(*condition),
            Child::Statement(*step),
            Child::Statement(*body),
        ],
        Statement::If { condition, body } => vec![Child::Expression(*condition), Child::Statement(*body)],
        Statement::IfElse(a, b) => vec![Child::Statement(*a), Child::Statement(*b)],
        Statement::Let(_, e) => vec![Child::Expression(*e)],
        Statement::Const(_, e) => vec![Child::Expression(*e)],
        Statement::Assignment(_, e) => vec![Child::Expression(*e)],
        Statement::Return(e) => vec![Child::Expression(*e)],
        _ => Vec::new(),
    }
}

impl ASTStore {
    /// Walks the program `program`: each of its functions in turn, then the visitor leaves the
    /// program, until the visitor answers. The program itself is not entered.
    #[verifier::spinoff_prover]
    #[verifier::rlimit(40)]
    pub fn walk_program<R, V: ASTVisitor<R>>(&mut self, visitor: &mut V, program: &mut SourceIDSpanned<Program>) -> (r: Option<R>)
        requires
            forall|k: int| 0 <= k < old(program).inner.functions@.len() ==>
                old(self).function_in_store(#[trigger] old(program).inner.functions@[k] as int),
            !reaches_unsupported(*old(visitor), old(self).program_visits(*old(program))),
        ensures
            *final(self) == *old(self),
            *final(program) == *old(program),
            (*final(visitor), r) == run(*old(visitor), old(self).program_visits(*old(program))),
    {
        let ghost v0 = *visitor;
        let ghost ids = program.inner.functions@;
        let ghost exit = seq![Visit::ExitProgram(*program)];
        let ghost full = self.program_visits(*program);
        proof {
            assert(full == self.function_list_visits(ids) + exit);
            assert(ids.take(0) =~= seq![]);
            assert(self.function_list_visits(ids.take(0)) =~= seq![]);
            reveal_with_fuel(run, 1);
        }
        let mut k: usize = 0;
        while k < program.inner.functions.len()
            invariant
                *self == *old(self),
                *program == *old(program),
                v0 == *old(visitor),
                ids == program.inner.functions@,
                full == old(self).program_visits(*old(program)),
                exit == seq![Visit::ExitProgram(*program)],
                full == self.function_list_visits(ids) + exit,
                !reaches_unsupported(v0, full),
                forall|j: int| 0 <= j < ids.len() ==> self.function_in_store(#[trigger] ids[j] as int),
                k <= ids.len(),
                !reaches_unsupported(v0, self.function_list_visits(ids.take(k as int))),
                (*visitor, None::<R>) == run(v0, self.function_list_visits(ids.take(k as int))),
            decreases ids.len() - k,
        {
            let ghost prefix = self.function_list_visits(ids.take(k as int));
            let function_id = program.inner.functions[k];
            let ghost item = self.function_visits(function_id as int);
            let ghost rest = self.lemma_function_list_prefix(ids, k as int + 1);
            proof {
                assert(self.function_in_store(ids[k as int] as int));
                assert(ids.take(k as int + 1).drop_last() =~= ids.take(k as int));
                let next = self.function_list_visits(ids.take(k as int + 1));
                assert(next =~= prefix + item);
                assert(full =~= prefix + (item + (rest + exit)));
                lemma_walk_step(v0, prefix, item, rest + exit);
            }
            let r = self.walk_function(visitor, function_id);
            if r.is_some() {
                proof {
                    let next = self.function_list_visits(ids.take(k as int + 1));
                    assert(full =~= next + (rest + exit));
                    lemma_walk_answered(v0, next, rest + exit);
                }
                return r;
            }
            k = k + 1;
        }
        proof {
            assert(ids.take(k as int) =~= ids);
        }
        let ghost before_exit = *visitor;
        let result = visitor.exit_program(program);
        proof {
            lemma_run_single(before_exit, Visit::ExitProgram(*program));
            lemma_run_concat(v0, self.function_list_visits(ids), exit);
        }
        result
    }

    /// Walks function `function_id`: the visitor enters it, then the statements of its body,
    /// then leaves it, until it answers.
    #[verifier::spinoff_prover]
    #[verifier::rlimit(40)]
    pub fn walk_function<R, V: ASTVisitor<R>>(&mut self, visitor: &mut V, function_id: FunctionID) -> (r: Option<R>)
        requires
            old(self).function_in_store(function_id as int),
            !reaches_unsupported(*old(visitor), old(self).function_visits(function_id as int)),
        ensures
            *final(self) == *old(self),
            (*final(visitor), r) == run(*old(visitor), old(self).function_visits(function_id as int)),
    {
        let ghost v0 = *visitor;
        let ghost f = self.functions@[function_id as int];
        let ghost enter = seq![Visit::EnterFunction(f, function_id)];
        let ghost exit = seq![Visit::ExitFunction(f, function_id)];
        let ghost full = self.function_visits(function_id as int);
        let ghost body = f.inner.body@;
        let result = visitor.enter_function((&self.functions[function_id], function_id));
        proof {
            lemma_run_single(v0, Visit::EnterFunction(f, function_id));
            assert(full == enter + self.body_visits(body) + exit);
        }
        if result.is_some() {
            proof {
                assert(full =~= enter + (self.body_visits(body) + exit));
                lemma_run_concat(v0, enter, self.body_visits(body) + exit);
            }
            return result;
        }
        proof {
            assert(body.take(0) =~= seq![]);
            assert(enter + self.body_visits(body.take(0)) =~= enter);
        }
        let mut k: usize = 0;
        while k < self.functions[function_id].inner.body.len()
            invariant
                *self == *old(self),
                v0 == *old(visitor),
                full == old(self).function_visits(function_id as int),
                !reaches_unsupported(v0, full),
                self.function_in_store(function_id as int),
                f == self.functions@[function_id as int],
                body == f.inner.body@,
                k <= body.len(),
                full == enter + self.body_visits(body) + exit,
                !reaches_unsupported(v0, enter + self.body_visits(body.take(k as int))),
                (*visitor, None::<R>) == run(v0, enter + self.body_visits(body.take(k as int))),
            decreases body.len() - k,
        {
            let ghost prefix = enter + self.body_visits(body.take(k as int));
            let statement_id = self.functions[function_id].inner.body[k];
            let ghost item = self.statement_visits(statement_id as int);
            let ghost rest = self.lemma_body_prefix(body, k as int + 1);
            proof {
                assert(self.statement_in_store(body[k as int] as int));
                assert(body.take(k as int + 1).drop_last() =~= body.take(k as int));
                let next = enter + self.body_visits(body.take(k as int + 1));
                assert(next =~= prefix + item);
                assert(full =~= prefix + (item + (rest + exit)));
                lemma_walk_step(v0, prefix, item, rest + exit);
            }
            let r = self.walk_statement(visitor, statement_id);
            if r.is_some() {
                proof {
                    let next = enter + self.body_visits(body.take(k as int + 1));
                    assert(full =~= next + (rest + exit));
                    lemma_walk_answered(v0, next, rest + exit);
                }
                return r;
            }
            k = k + 1;
        }
        proof {
            assert(body.take(k as int) =~= body);
        }
        let ghost before_exit = *visitor;
        let result = visitor.exit_function((&self.functions[function_id], function_id));
        proof {
            lemma_run_single(before_exit, Visit::ExitFunction(f, function_id));
            lemma_run_concat(v0, enter + self.body_visits(body), exit);
        }
        result
    }

    /// Walks statement `statement_id`: the visitor enters it, then its children, then leaves it,
    /// until it answers. Walks do not go inside a `switch`; the visitor must answer before.
    pub fn walk_statement<R, V: ASTVisitor<R>>(&mut self, visitor: &mut V, statement_id: StatementID) -> (r: Option<R>)
        requires
            old(self).statement_in_store(statement_id as int),
            !reaches_unsupported(*old(visitor), old(self).statement_visits(statement_id as int)),
        ensures
            *final(self) == *old(self),
            (*final(visitor), r) == run(*old(visitor), old(self).statement_visits(statement_id as int)),
    {
        let ghost depth = self.statement_depth(statement_id as int);
        self.walk_statement_to(visitor, statement_id, Ghost(depth))
    }

    #[verifier::spinoff_prover]
    #[verifier::rlimit(40)]
    fn walk_statement_to<R, V: ASTVisitor<R>>(&mut self, visitor: &mut V, statement_id: StatementID, Ghost(depth): Ghost<nat>) -> (r: Option<R>)
        requires
            old(self).statement_walkable(statement_id as int, depth),
            !reaches_unsupported(*old(visitor), old(self).statement_visits_at(statement_id as int, depth)),
        ensures
            *final(self) == *old(self),
            (*final(visitor), r) == run(*old(visitor), old(self).statement_visits_at(statement_id as int, depth)),
        decreases depth,
    {
        let ghost v0 = *visitor;
        let ghost st = self.statements@[statement_id as int];
        let ghost enter = seq![Visit::EnterStatement(st, statement_id)];
        let ghost exit = seq![Visit::ExitStatement(st, statement_id)];
        let ghost full = self.statement_visits_at(statement_id as int, depth);
        let ghost below = (depth - 1) as nat;
        let result = visitor.enter_statement((&self.statements[statement_id], statement_id));
        proof {
            lemma_run_single(v0, Visit::EnterStatement(st, statement_id));
        }
        if result.is_some() {
            proof {
                let rest = full.drop_first();
                assert(full =~= enter + rest);
                lemma_run_concat(v0, enter, rest);
            }
            return result;
        }
        if let Statement::Switch { .. } = &self.statements[statement_id].inner {
            proof {
                let unsupported = seq![Visit::Unsupported];
                assert(full =~= enter + unsupported);
                lemma_run_concat(v0, enter, unsupported);
                assert(reaches_unsupported(*visitor, unsupported));
            }
            return None;
        }
        let children = statement_child_list(&self.statements[statement_id].inner);
        proof {
            assert(full == enter + self.children_visits_at(children@, below) + exit);
            assert(children@.take(0) =~= seq![]);
            assert(enter + self.children_visits_at(children@.take(0), below) =~= enter);
        }
        let mut k: usize = 0;
        while k < children.len()
            invariant
                *self == *old(self),
                v0 == *old(visitor),
                full == old(self).statement_visits_at(statement_id as int, depth),
                !reaches_unsupported(v0, full),
                self.statement_walkable(statement_id as int, depth),
                below == depth - 1,
                st == self.statements@[statement_id as int],
                !(st.inner is Switch),
                children@ == statement_children(st.inner),
                k <= children@.len(),
                full == enter + self.children_visits_at(children@, below) + exit,
                !reaches_unsupported(v0, enter + self.children_visits_at(children@.take(k as int), below)),
                (*visitor, None::<R>) == run(v0, enter + self.children_visits_at(children@.take(k as int), below)),
            decreases children@.len() - k,
        {
            let ghost prefix = enter + self.children_visits_at(children@.take(k as int), below);
            let child = children[k];
            let ghost item = match child {
                Child::Statement(s) => self.statement_visits_at(s as int, below),
                Child::Expression(e) => self.expression_visits_at(e as int, below),
            };
            let ghost rest = self.lemma_children_prefix(children@, below, k as int + 1);
            proof {
                assert(children@.take(k as int + 1).drop_last() =~= children@.take(k as int));
                assert(children@[k as int] == child);
                let next = enter + self.children_visits_at(children@.take(k as int + 1), below);
                assert(next =~= prefix + item);
                assert(full =~= prefix + (item + (rest + exit)));
                lemma_walk_step(v0, prefix, item, rest + exit);
            }
            let r = match child {
                Child::Statement(s) => self.walk_statement_to(visitor, s, Ghost(below)),
                Child::Expression(e) => self.walk_expression_to(visitor, e, Ghost(below)),
            };
            if r.is_some() {
                proof {
                    let next = enter + self.children_visits_at(children@.take(k as int + 1), below);
                    assert(full =~= next + (rest + exit));
                    lemma_walk_answered(v0, next, rest + exit);
                }
                return r;
            }
            k = k + 1;
        }
        proof {
            assert(children@.take(k as int) =~= children@);
        }
        let ghost before_exit = *visitor;
        let result = visitor.exit_statement((&self.statements[statement_id], statement_id));
        proof {
            let body = enter + self.children_visits_at(children@, below);
            lemma_run_single(before_exit, Visit::ExitStatement(st, statement_id));
            lemma_run_concat(v0, body, exit);
        }
        result
    }

    /// Walks expression `expression_id`: the visitor enters it, then its children, then leaves
    /// it, until it answers.
    pub fn walk_expression<R, V: ASTVisitor<R>>(&mut self, visitor: &mut V, expression_id: ExpressionID) -> (r: Option<R>)
        requires
            old(self).expression_in_store(expression_id as int),
        ensures
            *final(self) == *old(self),
            (*final(visitor), r) == run(*old(visitor), old(self).expression_visits(expression_id as int)),
            !reaches_unsupported(*old(visitor), old(self).expression_visits(expression_id as int)),
    {
        let ghost depth = self.expression_depth(expression_id as int);
        self.walk_expression_to(visitor, expression_id, Ghost(depth))
    }

    #[verifier::spinoff_prover]
    #[verifier::rlimit(40)]
    fn walk_expression_to<R, V: ASTVisitor<R>>(&mut self, visitor: &mut V, expression_id: ExpressionID, Ghost(depth): Ghost<nat>) -> (r: Option<R>)
        requires
            old(self).expression_walkable(expression_id as int, depth),
        ensures
            *final(self) == *old(self),
            (*final(visitor), r) == run(*old(visitor), old(self).expression_visits_at(expression_id as int, depth)),
            !reaches_unsupported(*old(visitor), old(self).expression_visits_at(expression_id as int, depth)),
        decreases depth,
    {
        let ghost v0 = *visitor;
        let ghost e = self.expressions@[expression_id as int];
        let ghost enter = seq![Visit::EnterExpression(e, expression_id)];
        let ghost exit = seq![Visit::ExitExpression(e, expression_id)];
        let ghost full = self.expression_visits_at(expression_id as int, depth);
        let ghost below = (depth - 1) as nat;
        let result = visitor.enter_expression((&self.expressions[expression_id], expression_id));
        proof {
            assert(full == enter + self.expression_list_visits_at(expression_children(e.inner), below) + exit);
            lemma_run_single(v0, Visit::EnterExpression(e, expression_id));
        }
        if result.is_some() {
            proof {
                lemma_walk_answered(v0, enter, self.expression_list_visits_at(expression_children(e.inner), below) + exit);
                assert(full =~= enter + (self.expression_list_visits_at(expression_children(e.inner), below) + exit));
                lemma_run_concat(v0, enter, self.expression_list_visits_at(expression_children(e.inner), below) + exit);
            }
            return result;
        }
        let children = expression_child_ids(&self.expressions[expression_id].inner);
        proof {
            assert(children@.take(0) =~= seq![]);
            assert(enter + self.expression_list_visits_at(children@.take(0), below) =~= enter);
        }
        let mut k: usize = 0;
        while k < children.len()
            invariant
                *self == *old(self),
                v0 == *old(visitor),
                full == old(self).expression_visits_at(expression_id as int, depth),
                self.expression_walkable(expression_id as int, depth),
                below == depth - 1,
                e == self.expressions@[expression_id as int],
                children@ == expression_children(e.inner),
                k <= children@.len(),
                full == enter + self.expression_list_visits_at(children@, below) + exit,
                !reaches_unsupported(v0, enter + self.expression_list_visits_at(children@.take(k as int), below)),
                (*visitor, None::<R>) == run(v0, enter + self.expression_list_visits_at(children@.take(k as int), below)),
            decreases children@.len() - k,
        {
            let ghost prefix = enter + self.expression_list_visits_at(children@.take(k as int), below);
            let child = children[k];
            proof {
                assert(self.expression_walkable(children@[k as int] as int, below));
            }
            let r = self.walk_expression_to(visitor, child, Ghost(below));
            proof {
                let item = self.expression_visits_at(child as int, below);
                assert(children@.take(k as int + 1).drop_last() =~= children@.take(k as int));
                let next = enter + self.expression_list_visits_at(children@.take(k as int + 1), below);
                assert(next =~= prefix + item);
                lemma_run_concat(v0, prefix, item);
            }
            if r.is_some() {
                proof {
                    let item = self.expression_visits_at(child as int, below);
                    let rest = self.lemma_expression_list_prefix(children@, below, k as int + 1);
                    let next = enter + self.expression_list_visits_at(children@.take(k as int + 1), below);
                    assert(full =~= next + (rest + exit));
                    lemma_run_concat(v0, prefix, item);
                    lemma_walk_answered(v0, next, rest + exit);
                    lemma_run_concat(v0, next, rest + exit);
                }
                return r;
            }
            k = k + 1;
        }
        proof {
            assert(children@.take(k as int) =~= children@);
        }
        let ghost before_exit = *visitor;
        let result = visitor.exit_expression((&self.expressions[expression_id], expression_id));
        proof {
            let body = enter + self.expression_list_visits_at(children@, below);
            lemma_run_single(before_exit, Visit::ExitExpression(e, expression_id));
            lemma_run_concat(v0, body, exit);
        }
        result
    }
}

} // verus!
