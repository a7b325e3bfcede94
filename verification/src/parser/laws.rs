//! What parsing does to a store: it only adds nodes, and every node it adds refers only to nodes
//! that were there before it, so a store that starts well formed stays well formed.
use vstd::prelude::*;

use crate::ast::{BinaryOperator, Expression, Statement};
use crate::ast_store::{expr_node, stmt_node, ASTStore, Arena, CaseNode, ExprNode, FuncNode, StmtNode};
use crate::ast_visitor::{children_before, expression_children, ids_before, statement_children, Child};
use crate::parser::grammar::{
    add_expr, add_func, add_stmt, for_tail, forward, range_span, sp_arguments, sp_assignment,
    sp_assignment_statement, sp_binary, sp_block, sp_call, sp_callee, sp_case, sp_cases,
    sp_compound, sp_conditional, sp_const, sp_default_case, sp_else, sp_expression,
    sp_expression_statement, sp_fold, sp_for, sp_for_body, sp_for_condition, sp_for_init,
    sp_for_step, sp_function, sp_functions, sp_identifier, sp_if, sp_if_else, sp_let, sp_literal,
    sp_more_arguments, sp_operator, sp_parameter_list, sp_parenthesized, sp_postfix,
    sp_program, sp_return, sp_return_type, sp_shorthand, sp_shorthand_operator, sp_simple,
    sp_single, sp_statement, sp_statements, sp_switch, sp_switch_body, sp_term, sp_typed,
    sp_unary, sp_while, switch_tail, tok_is, Attempt, Toks,
};
use crate::span::SourceID;
use crate::parser::lexer::{fixed_text, Token};
use crate::span::SourceIDSpan;

verus! {

/// The ids `ids` are all below `bound`.
pub open spec fn ids_below(ids: Seq<usize>, bound: int) -> bool {
    forall|k: int| 0 <= k < ids.len() ==> #[trigger] ids[k] < bound
}

/// The expressions that an expression node refers to.
pub open spec fn expr_refs(n: ExprNode) -> Seq<usize> {
    match n {
        ExprNode::Typed(_, _, e) => seq![e],
        ExprNode::Call(callee, args) => seq![callee] + args,
        ExprNode::Binop(_, lhs, rhs) => seq![lhs, rhs],
        ExprNode::Unop(_, e) => seq![e],
        ExprNode::PropertyAccess(e, _, _) => seq![e],
        _ => seq![],
    }
}

/// The bodies of `cases` only hold statements below `bound`.
pub open spec fn case_bodies_below(cases: Seq<CaseNode>, bound: int) -> bool {
    forall|k: int| 0 <= k < cases.len() ==> ids_below((#[trigger] cases[k]).1, bound)
}

/// A statement node refers only to statements below `s_bound` and expressions below `e_bound`.
pub open spec fn stmt_refs_below(n: StmtNode, s_bound: int, e_bound: int) -> bool {
    match n {
        StmtNode::Block(ids) => ids_below(ids, s_bound),
        StmtNode::Expression(e) => e < e_bound,
        StmtNode::Let(l, r) => l < e_bound && r < e_bound,
        StmtNode::Const(l, r) => l < e_bound && r < e_bound,
        StmtNode::Assignment(l, r) => l < e_bound && r < e_bound,
        StmtNode::Return(e) => e < e_bound,
        StmtNode::While(c, b) => c < e_bound && b < s_bound,
        StmtNode::For(i, c, s, b) => i < s_bound && c < e_bound && s < s_bound && b < s_bound,
        StmtNode::If(c, b) => c < e_bound && b < s_bound,
        StmtNode::IfElse(x, y) => x < s_bound && y < s_bound,
        StmtNode::Switch(m, cases) => m < e_bound && case_bodies_below(cases, s_bound),
        _ => true,
    }
}

/// Every node refers only to nodes that exist, and an expression or a statement only to
/// expressions or statements stored before it.
#[verifier::opaque]
pub open spec fn closed(a: Arena) -> bool {
    &&& forall|i: int| 0 <= i < a.expressions.len() ==> ids_below(expr_refs((#[trigger] a.expressions[i]).0), i)
    &&& forall|i: int| 0 <= i < a.statements.len() ==>
        stmt_refs_below((#[trigger] a.statements[i]).0, i, a.expressions.len() as int)
    &&& forall|i: int| 0 <= i < a.functions.len() ==> ids_below((#[trigger] a.functions[i]).0.body, a.statements.len() as int)
}

/// The nodes of `a` are the first nodes of `b`.
#[verifier::opaque]
pub open spec fn keeps(a: Arena, b: Arena) -> bool {
    &&& forall|i: int| 0 <= i < a.expressions.len() ==> b.expressions[i] == a.expressions[i]
    &&& forall|i: int| 0 <= i < a.statements.len() ==> b.statements[i] == a.statements[i]
    &&& forall|i: int| 0 <= i < a.functions.len() ==> b.functions[i] == a.functions[i]
}

/// The first branch of every `if`-`else` statement is an `if` statement, and both branches are
/// stored before it.
#[verifier::opaque]
pub open spec fn if_else_shaped(a: Arena) -> bool {
    forall|k: int| 0 <= k < a.statements.len() ==>
        ((#[trigger] a.statements[k]).0 matches StmtNode::IfElse(x, y) ==> x < k && y < k && a.statements[x as int].0 is If)
}

/// The store holds fewer nodes of each kind than the largest id, as every store in memory does.
pub open spec fn small(a: Arena) -> bool {
    &&& a.expressions.len() <= usize::MAX
    &&& a.statements.len() <= usize::MAX
    &&& a.functions.len() <= usize::MAX
}

/// `b` is `a` with nodes added at the ends; and if `a` is closed, so is `b` (when it is small).
pub open spec fn grows(a: Arena, b: Arena) -> bool {
    &&& a.expressions.len() <= b.expressions.len()
    &&& a.statements.len() <= b.statements.len()
    &&& a.functions.len() <= b.functions.len()
    &&& keeps(a, b)
    &&& closed(a) && small(b) ==> closed(b)
    &&& if_else_shaped(a) && small(b) ==> if_else_shaped(b)
}

/// The store holds the predefined literals, which parsing refers to without adding them.
pub open spec fn has_literals(a: Arena) -> bool {
    a.expressions.len() >= 4
}

/// On success, the attempt's result is an expression of its store (when it is small).
pub open spec fn expr_result(s: Attempt<usize>) -> bool {
    small(s.0) ==> (s.1 matches Some((id, _)) ==> id < s.0.expressions.len())
}

/// On success, the attempt's result is a statement of its store (when it is small).
pub open spec fn stmt_result(s: Attempt<usize>) -> bool {
    small(s.0) ==> (s.1 matches Some((id, _)) ==> id < s.0.statements.len())
}

proof fn lemma_grows_refl(a: Arena)
    ensures
        grows(a, a),
{
    reveal(keeps);
}

proof fn lemma_grows_trans(a: Arena, b: Arena, c: Arena)
    requires
        grows(a, b),
        grows(b, c),
    ensures
        grows(a, c),
{
    reveal(keeps);
}

proof fn lemma_stmt_refs_below_mono(n: StmtNode, s1: int, e1: int, s2: int, e2: int)
    requires
        stmt_refs_below(n, s1, e1),
        s1 <= s2,
        e1 <= e2,
    ensures
        stmt_refs_below(n, s2, e2),
{
    match n {
        StmtNode::Switch(m, cases) => {
            assert forall|k: int| 0 <= k < cases.len() implies ids_below((#[trigger] cases[k]).1, s2) by {
                assert(ids_below(cases[k].1, s1));
            }
        },
        _ => {},
    }
}

/// Adding an expression that refers only to existing expressions.
proof fn lemma_add_expr(a: Arena, n: ExprNode, s: SourceIDSpan)
    requires
        small(add_expr(a, n, s).0) ==> ids_below(expr_refs(n), a.expressions.len() as int),
    ensures
        grows(a, add_expr(a, n, s).0),
        small(add_expr(a, n, s).0) ==> add_expr(a, n, s).1 == a.expressions.len(),
        add_expr(a, n, s).0.expressions.len() == a.expressions.len() + 1,
{
    let b = add_expr(a, n, s).0;
    reveal(keeps);
    reveal(if_else_shaped);
    assert(b.statements == a.statements);
    if closed(a) && small(b) {
        reveal(closed);
        assert forall|i: int| 0 <= i < b.expressions.len() implies ids_below(expr_refs((#[trigger] b.expressions[i]).0), i) by {
            if i < a.expressions.len() {
                assert(b.expressions[i] == a.expressions[i]);
            }
        }
        assert forall|i: int| 0 <= i < b.statements.len() implies
            stmt_refs_below((#[trigger] b.statements[i]).0, i, b.expressions.len() as int) by {
            lemma_stmt_refs_below_mono(b.statements[i].0, i, a.expressions.len() as int, i, b.expressions.len() as int);
        }
    }
}

/// Adding a statement that refers only to existing statements and expressions.
proof fn lemma_add_stmt(a: Arena, n: StmtNode, s: SourceIDSpan)
    requires
        small(add_stmt(a, n, s).0) ==> stmt_refs_below(n, a.statements.len() as int, a.expressions.len() as int),
        small(add_stmt(a, n, s).0) ==> (n matches StmtNode::IfElse(x, _) ==> a.statements[x as int].0 is If),
    ensures
        grows(a, add_stmt(a, n, s).0),
        small(add_stmt(a, n, s).0) ==> add_stmt(a, n, s).1 == a.statements.len(),
        add_stmt(a, n, s).0.statements.len() == a.statements.len() + 1,
{
    let b = add_stmt(a, n, s).0;
    reveal(keeps);
    if if_else_shaped(a) && small(b) {
        reveal(if_else_shaped);
        assert forall|k: int| 0 <= k < b.statements.len() implies
            ((#[trigger] b.statements[k]).0 matches StmtNode::IfElse(x, y) ==> x < k && y < k && b.statements[x as int].0 is If) by {
            if k < a.statements.len() {
                assert(b.statements[k] == a.statements[k]);
                if let StmtNode::IfElse(x, y) = a.statements[k].0 {
                    assert(b.statements[x as int] == a.statements[x as int]);
                }
            } else {
                if let StmtNode::IfElse(x, y) = n {
                    assert(b.statements[x as int] == a.statements[x as int]);
                }
            }
        }
    }
    if closed(a) && small(b) {
        reveal(closed);
        assert forall|i: int| 0 <= i < b.statements.len() implies
            stmt_refs_below((#[trigger] b.statements[i]).0, i, b.expressions.len() as int) by {
            if i < a.statements.len() {
                assert(b.statements[i] == a.statements[i]);
            }
        }
        assert forall|i: int| 0 <= i < b.functions.len() implies ids_below((#[trigger] b.functions[i]).0.body, b.statements.len() as int) by {
            assert(ids_below(a.functions[i].0.body, a.statements.len() as int));
        }
    }
}

/// Adding a function whose body holds existing statements.
proof fn lemma_add_func(a: Arena, n: FuncNode, s: SourceIDSpan)
    requires
        small(add_func(a, n, s).0) ==> ids_below(n.body, a.statements.len() as int),
    ensures
        grows(a, add_func(a, n, s).0),
        small(add_func(a, n, s).0) ==> add_func(a, n, s).1 == a.functions.len(),
        add_func(a, n, s).0.functions.len() == a.functions.len() + 1,
{
    let b = add_func(a, n, s).0;
    reveal(keeps);
    reveal(if_else_shaped);
    assert(b.statements == a.statements);
    if closed(a) && small(b) {
        reveal(closed);
        assert forall|i: int| 0 <= i < b.functions.len() implies ids_below((#[trigger] b.functions[i]).0.body, b.statements.len() as int) by {
            if i < a.functions.len() {
                assert(b.functions[i] == a.functions[i]);
            }
        }
    }
}

// ***************************************** EXPRESSIONS ******************************************

proof fn lemma_identifier(t: Toks, a: Arena, p: int)
    requires
        has_literals(a),
    ensures
        grows(a, sp_identifier(t, a, p).0),
        expr_result(sp_identifier(t, a, p)),
{
    if 0 <= p < t.len() && t[p].0 is Identifier {
        lemma_add_expr(a, ExprNode::Identifier(t[p].0->Identifier_0@), range_span(t, p, p + 1));
    } else {
        lemma_grows_refl(a);
    }
}

proof fn lemma_literal(t: Toks, a: Arena, p: int)
    requires
        has_literals(a),
    ensures
        grows(a, sp_literal(t, a, p).0),
        expr_result(sp_literal(t, a, p)),
{
    if 0 <= p < t.len() && t[p].0 is StringLiteral {
        lemma_add_expr(a, ExprNode::Str(t[p].0->StringLiteral_0@), range_span(t, p, p + 1));
    } else if 0 <= p < t.len() && t[p].0 is NumberLiteral {
        lemma_add_expr(a, ExprNode::Number(t[p].0->NumberLiteral_0@), range_span(t, p, p + 1));
    } else {
        lemma_grows_refl(a);
    }
}

proof fn lemma_expression(t: Toks, a: Arena, p: int)
    requires
        has_literals(a),
    ensures
        grows(a, sp_expression(t, a, p).0),
        expr_result(sp_expression(t, a, p)),
    decreases t.len() - p, 30nat,
{
    let (a3, r3) = sp_binary(t, a, p, 3);
    lemma_binary(t, a, p, 3);
    if r3 is None {
        let (a2, r2) = sp_binary(t, a3, p, 2);
        lemma_binary(t, a3, p, 2);
        lemma_grows_trans(a, a3, a2);
        if r2 is None {
            let (a1, r1) = sp_binary(t, a2, p, 1);
            lemma_binary(t, a2, p, 1);
            lemma_grows_trans(a, a2, a1);
            if r1 is None {
                let (a0, r0) = sp_term(t, a1, p);
                lemma_term(t, a1, p);
                lemma_grows_trans(a, a1, a0);
                if r0 is None {
                    lemma_parenthesized(t, a0, p);
                    lemma_grows_trans(a, a0, sp_parenthesized(t, a0, p).0);
                }
            }
        }
    }
}

proof fn lemma_binary(t: Toks, a: Arena, p: int, level: nat)
    requires
        has_literals(a),
    ensures
        grows(a, sp_binary(t, a, p, level).0),
        expr_result(sp_binary(t, a, p, level)),
    decreases t.len() - p, 21 + 2 * level,
{
    if level == 0 || level > 3 {
        lemma_term(t, a, p);
    } else {
        let (a1, r) = sp_binary(t, a, p, (level - 1) as nat);
        lemma_binary(t, a, p, (level - 1) as nat);
        match r {
            Some((lhs, q)) => if forward(t, p, q) {
                let f = sp_fold(t, a1, level, lhs, range_span(t, p, q), q);
                lemma_fold(t, a1, level, lhs, range_span(t, p, q), q);
                lemma_grows_trans(a, a1, f.0);
            },
            None => {},
        }
    }
}

proof fn lemma_fold(t: Toks, a: Arena, level: nat, lhs: usize, lhs_span: SourceIDSpan, q: int)
    requires
        has_literals(a),
        small(a) ==> lhs < a.expressions.len(),
    ensures
        grows(a, sp_fold(t, a, level, lhs, lhs_span, q).0),
        small(sp_fold(t, a, level, lhs, lhs_span, q).0) ==> sp_fold(t, a, level, lhs, lhs_span, q).1 < sp_fold(t, a, level, lhs, lhs_span, q).0.expressions.len(),
    decreases t.len() - q, 20 + 2 * level,
{
    if q < 0 || q >= t.len() || level == 0 || level > 3 {
        lemma_grows_refl(a);
    } else {
        match sp_operator(t, q, level) {
            None => lemma_grows_refl(a),
            Some(op) => {
                let (a1, r) = sp_binary(t, a, q + 1, (level - 1) as nat);
                lemma_binary(t, a, q + 1, (level - 1) as nat);
                match r {
                    Some((rhs, e)) => if forward(t, q + 1, e) {
                        let span = lhs_span.spec_union(range_span(t, q, q + 1)).spec_union(range_span(t, q + 1, e));
                        let (a2, id) = add_expr(a1, ExprNode::Binop(op, lhs, rhs), span);
                        lemma_add_expr(a1, ExprNode::Binop(op, lhs, rhs), span);
                        lemma_grows_trans(a, a1, a2);
                        let f = sp_fold(t, a2, level, id, span, e);
                        lemma_fold(t, a2, level, id, span, e);
                        lemma_grows_trans(a, a2, f.0);
                    } else {
                        lemma_grows_refl(a1);
                    },
                    None => {},
                }
            },
        }
    }
}

proof fn lemma_term(t: Toks, a: Arena, p: int)
    requires
        has_literals(a),
    ensures
        grows(a, sp_term(t, a, p).0),
        expr_result(sp_term(t, a, p)),
    decreases t.len() - p, 20nat,
{
    let (a1, r1) = sp_unary(t, a, p);
    lemma_unary(t, a, p);
    if r1 is None {
        let (a2, r2) = sp_call(t, a1, p);
        lemma_call(t, a1, p);
        lemma_grows_trans(a, a1, a2);
        if r2 is None {
            let (a3, r3) = sp_identifier(t, a2, p);
            lemma_identifier(t, a2, p);
            lemma_grows_trans(a, a2, a3);
            if r3 is None {
                let (a4, r4) = sp_literal(t, a3, p);
                lemma_literal(t, a3, p);
                lemma_grows_trans(a, a3, a4);
                if r4 is None {
                    let (a5, r5) = sp_typed(t, a4, p);
                    lemma_typed(t, a4, p);
                    lemma_grows_trans(a, a4, a5);
                    if r5 is None {
                        lemma_parenthesized(t, a5, p);
                        lemma_grows_trans(a, a5, sp_parenthesized(t, a5, p).0);
                    }
                }
            }
        }
    }
}

proof fn lemma_unary(t: Toks, a: Arena, p: int)
    requires
        has_literals(a),
    ensures
        grows(a, sp_unary(t, a, p).0),
        expr_result(sp_unary(t, a, p)),
    decreases t.len() - p, 19nat,
{
    if tok_is(t, p, Token::Bang) || tok_is(t, p, Token::Minus) {
        let op = if tok_is(t, p, Token::Bang) { crate::ast::UnaryOperator::UnaryNot } else { crate::ast::UnaryOperator::UnaryMinus };
        let (a1, r) = sp_term(t, a, p + 1);
        lemma_term(t, a, p + 1);
        match r {
            Some((term, q)) => if forward(t, p + 1, q) {
                lemma_add_expr(a1, ExprNode::Unop(op, term), range_span(t, p, q));
                lemma_grows_trans(a, a1, add_expr(a1, ExprNode::Unop(op, term), range_span(t, p, q)).0);
            },
            None => {},
        }
    } else {
        lemma_grows_refl(a);
    }
}

proof fn lemma_call(t: Toks, a: Arena, p: int)
    requires
        has_literals(a),
    ensures
        grows(a, sp_call(t, a, p).0),
        expr_result(sp_call(t, a, p)),
    decreases t.len() - p, 18nat,
{
    let (a1, callee) = sp_callee(t, a, p);
    lemma_callee(t, a, p);
    match callee {
        Some((c, q)) => if forward(t, p, q) {
            let (a2, args) = sp_arguments(t, a1, q);
            lemma_arguments(t, a1, q);
            lemma_grows_trans(a, a1, a2);
            match args {
                Some((ids, e)) => if forward(t, q, e) {
                    let n = ExprNode::Call(c, ids);
                    lemma_add_expr(a2, n, range_span(t, p, e));
                    lemma_grows_trans(a, a2, add_expr(a2, n, range_span(t, p, e)).0);
                    assert(small(add_expr(a2, n, range_span(t, p, e)).0) ==> ids_below(expr_refs(n), a2.expressions.len() as int)) by {
                        if small(add_expr(a2, n, range_span(t, p, e)).0) {
                            assert forall|k: int| 0 <= k < expr_refs(n).len() implies #[trigger] expr_refs(n)[k] < a2.expressions.len() by {
                                if k > 0 {
                                    assert(expr_refs(n)[k] == ids[k - 1]);
                                }
                            }
                        }
                    }
                },
                None => {},
            }
        },
        None => {},
    }
}

proof fn lemma_callee(t: Toks, a: Arena, p: int)
    requires
        has_literals(a),
    ensures
        grows(a, sp_callee(t, a, p).0),
        expr_result(sp_callee(t, a, p)),
    decreases t.len() - p, 17nat,
{
    let (a1, r) = sp_parenthesized(t, a, p);
    lemma_parenthesized(t, a, p);
    if r is None {
        lemma_identifier(t, a1, p);
        lemma_grows_trans(a, a1, sp_identifier(t, a1, p).0);
    }
}

proof fn lemma_parenthesized(t: Toks, a: Arena, p: int)
    requires
        has_literals(a),
    ensures
        grows(a, sp_parenthesized(t, a, p).0),
        expr_result(sp_parenthesized(t, a, p)),
    decreases t.len() - p, 16nat,
{
    if tok_is(t, p, Token::LParenthesis) {
        lemma_expression(t, a, p + 1);
    } else {
        lemma_grows_refl(a);
    }
}

proof fn lemma_arguments(t: Toks, a: Arena, p: int)
    requires
        has_literals(a),
    ensures
        grows(a, sp_arguments(t, a, p).0),
        small(sp_arguments(t, a, p).0) ==> (sp_arguments(t, a, p).1 matches Some((ids, _))
            ==> ids_below(ids, sp_arguments(t, a, p).0.expressions.len() as int)),
    decreases t.len() - p, 15nat,
{
    if tok_is(t, p, Token::LParenthesis) {
        let (a1, first) = sp_expression(t, a, p + 1);
        lemma_expression(t, a, p + 1);
        match first {
            Some((e, q1)) => if forward(t, p + 1, q1) {
                lemma_more_arguments(t, a1, seq![e], q1);
                lemma_grows_trans(a, a1, sp_more_arguments(t, a1, seq![e], q1).0);
            },
            None => {},
        }
    } else {
        lemma_grows_refl(a);
    }
}

proof fn lemma_more_arguments(t: Toks, a: Arena, ids: Seq<usize>, q: int)
    requires
        has_literals(a),
        small(a) ==> ids_below(ids, a.expressions.len() as int),
    ensures
        grows(a, sp_more_arguments(t, a, ids, q).0),
        small(sp_more_arguments(t, a, ids, q).0) ==> ids_below(sp_more_arguments(t, a, ids, q).1, sp_more_arguments(t, a, ids, q).0.expressions.len() as int),
    decreases t.len() - q, 14nat,
{
    if tok_is(t, q, Token::Comma) {
        let (a1, r) = sp_expression(t, a, q + 1);
        lemma_expression(t, a, q + 1);
        match r {
            Some((e, q1)) => if forward(t, q + 1, q1) {
                lemma_more_arguments(t, a1, ids.push(e), q1);
                lemma_grows_trans(a, a1, sp_more_arguments(t, a1, ids.push(e), q1).0);
            },
            None => {},
        }
    } else {
        lemma_grows_refl(a);
    }
}

proof fn lemma_typed(t: Toks, a: Arena, p: int)
    requires
        has_literals(a),
    ensures
        grows(a, sp_typed(t, a, p).0),
        expr_result(sp_typed(t, a, p)),
    decreases t.len() - p, 13nat,
{
    if 0 <= p < t.len() && t[p].0 is TypeIdentifier {
        let (a1, r) = sp_expression(t, a, p + 1);
        lemma_expression(t, a, p + 1);
        match r {
            Some((e, q)) => if forward(t, p + 1, q) {
                let node = ExprNode::Typed(t[p].0->TypeIdentifier_0@, range_span(t, p, p + 1), e);
                lemma_add_expr(a1, node, range_span(t, p, q));
                lemma_grows_trans(a, a1, add_expr(a1, node, range_span(t, p, q)).0);
            },
            None => {},
        }
    } else {
        lemma_grows_refl(a);
    }
}

// ****************************************** STATEMENTS ******************************************

/// On success, both ids of the attempt's result are expressions of its store (when it is small).
pub open spec fn pair_result(s: Attempt<(usize, usize)>) -> bool {
    small(s.0) ==> (s.1 matches Some(((l, r), _)) ==> l < s.0.expressions.len() && r < s.0.expressions.len())
}

/// On success, the body of the case is made of statements of its store (when it is small).
pub open spec fn case_result(s: Attempt<CaseNode>) -> bool {
    small(s.0) ==> (s.1 matches Some((c, _)) ==> ids_below(c.1, s.0.statements.len() as int))
}

proof fn lemma_statements(t: Toks, a: Arena, ids: Seq<usize>, p: int)
    requires
        has_literals(a),
        small(a) ==> ids_below(ids, a.statements.len() as int),
    ensures
        grows(a, sp_statements(t, a, ids, p).0),
        small(sp_statements(t, a, ids, p).0) ==> ids_below(sp_statements(t, a, ids, p).1, sp_statements(t, a, ids, p).0.statements.len() as int),
    decreases t.len() - p, 70nat,
{
    let (a1, r) = sp_statement(t, a, p);
    lemma_statement(t, a, p);
    match r {
        Some((id, q)) => if p < q <= t.len() {
            lemma_statements(t, a1, ids.push(id), q);
            lemma_grows_trans(a, a1, sp_statements(t, a1, ids.push(id), q).0);
        },
        None => {},
    }
}

proof fn lemma_statement(t: Toks, a: Arena, p: int)
    requires
        has_literals(a),
    ensures
        grows(a, sp_statement(t, a, p).0),
        stmt_result(sp_statement(t, a, p)),
    decreases t.len() - p, 69nat,
{
    let (a1, r1) = sp_single(t, a, p);
    lemma_single(t, a, p);
    if r1 is None {
        let (a2, r2) = sp_block(t, a1, p);
        lemma_block(t, a1, p);
        lemma_grows_trans(a, a1, a2);
        if r2 is None {
            lemma_compound(t, a2, p);
            lemma_grows_trans(a, a2, sp_compound(t, a2, p).0);
        }
    }
}

proof fn lemma_single(t: Toks, a: Arena, p: int)
    requires
        has_literals(a),
    ensures
        grows(a, sp_single(t, a, p).0),
        stmt_result(sp_single(t, a, p)),
    decreases t.len() - p, 68nat,
{
    lemma_simple(t, a, p);
}

proof fn lemma_simple(t: Toks, a: Arena, p: int)
    requires
        has_literals(a),
    ensures
        grows(a, sp_simple(t, a, p).0),
        stmt_result(sp_simple(t, a, p)),
    decreases t.len() - p, 67nat,
{
    let (a1, r1) = sp_let(t, a, p);
    lemma_let(t, a, p);
    if r1 is None {
        let (a2, r2) = sp_const(t, a1, p);
        lemma_const(t, a1, p);
        lemma_grows_trans(a, a1, a2);
        if r2 is None {
            let (a3, r3) = sp_assignment_statement(t, a2, p);
            lemma_assignment_statement(t, a2, p);
            lemma_grows_trans(a, a2, a3);
            if r3 is None {
                let (a4, r4) = sp_return(t, a3, p);
                lemma_return(t, a3, p);
                lemma_grows_trans(a, a3, a4);
                if r4 is None {
                    if tok_is(t, p, Token::Continue) {
                        lemma_add_stmt(a4, StmtNode::Continue, range_span(t, p, p + 1));
                        lemma_grows_trans(a, a4, add_stmt(a4, StmtNode::Continue, range_span(t, p, p + 1)).0);
                    } else if tok_is(t, p, Token::Break) {
                        lemma_add_stmt(a4, StmtNode::Break, range_span(t, p, p + 1));
                        lemma_grows_trans(a, a4, add_stmt(a4, StmtNode::Break, range_span(t, p, p + 1)).0);
                    } else if tok_is(t, p, Token::Return) {
                        lemma_add_stmt(a4, StmtNode::Return(0usize), range_span(t, p, p + 1));
                        lemma_grows_trans(a, a4, add_stmt(a4, StmtNode::Return(0usize), range_span(t, p, p + 1)).0);
                    } else {
                        let (a6, r6) = sp_expression_statement(t, a4, p);
                        lemma_expression_statement(t, a4, p);
                        lemma_grows_trans(a, a4, a6);
                        if r6 is None {
                            lemma_add_stmt(a6, StmtNode::Empty, range_span(t, p, p));
                            lemma_grows_trans(a, a6, add_stmt(a6, StmtNode::Empty, range_span(t, p, p)).0);
                        }
                    }
                }
            }
        }
    }
}

proof fn lemma_let(t: Toks, a: Arena, p: int)
    requires
        has_literals(a),
    ensures
        grows(a, sp_let(t, a, p).0),
        stmt_result(sp_let(t, a, p)),
    decreases t.len() - p, 66nat,
{
    if tok_is(t, p, Token::Let) {
        let (a1, r) = sp_assignment(t, a, p + 1);
        lemma_assignment(t, a, p + 1);
        match r {
            Some(((lhs, rhs), q)) => if forward(t, p + 1, q) {
                lemma_add_stmt(a1, StmtNode::Let(lhs, rhs), range_span(t, p, q));
                lemma_grows_trans(a, a1, add_stmt(a1, StmtNode::Let(lhs, rhs), range_span(t, p, q)).0);
            },
            None => {},
        }
    } else {
        lemma_grows_refl(a);
    }
}

proof fn lemma_const(t: Toks, a: Arena, p: int)
    requires
        has_literals(a),
    ensures
        grows(a, sp_const(t, a, p).0),
        stmt_result(sp_const(t, a, p)),
    decreases t.len() - p, 65nat,
{
    if tok_is(t, p, Token::Const) {
        let (a1, r) = sp_assignment(t, a, p + 1);
        lemma_assignment(t, a, p + 1);
        match r {
            Some(((lhs, rhs), q)) => if forward(t, p + 1, q) {
                lemma_add_stmt(a1, StmtNode::Const(lhs, rhs), range_span(t, p, q));
                lemma_grows_trans(a, a1, add_stmt(a1, StmtNode::Const(lhs, rhs), range_span(t, p, q)).0);
            },
            None => {},
        }
    } else {
        lemma_grows_refl(a);
    }
}

proof fn lemma_assignment_statement(t: Toks, a: Arena, p: int)
    requires
        has_literals(a),
    ensures
        grows(a, sp_assignment_statement(t, a, p).0),
        stmt_result(sp_assignment_statement(t, a, p)),
    decreases t.len() - p, 64nat,
{
    let (a1, r1) = sp_assignment(t, a, p);
    lemma_assignment(t, a, p);
    let (a3, r) = if r1 is Some {
        (a1, r1)
    } else {
        let (a2, r2) = sp_shorthand(t, a1, p);
        lemma_shorthand(t, a1, p);
        lemma_grows_trans(a, a1, a2);
        if r2 is Some {
            (a2, r2)
        } else {
            lemma_postfix(t, a2, p);
            lemma_grows_trans(a, a2, sp_postfix(t, a2, p).0);
            sp_postfix(t, a2, p)
        }
    };
    assert(grows(a, a3) && pair_result((a3, r)));
    match r {
        Some(((lhs, rhs), q)) => if forward(t, p, q) {
            lemma_add_stmt(a3, StmtNode::Assignment(lhs, rhs), range_span(t, p, q));
            lemma_grows_trans(a, a3, add_stmt(a3, StmtNode::Assignment(lhs, rhs), range_span(t, p, q)).0);
        },
        None => {},
    }
}

proof fn lemma_assignment(t: Toks, a: Arena, p: int)
    requires
        has_literals(a),
    ensures
        grows(a, sp_assignment(t, a, p).0),
        pair_result(sp_assignment(t, a, p)),
    decreases t.len() - p, 60nat,
{
    let (a1, r) = sp_expression(t, a, p);
    lemma_expression(t, a, p);
    match r {
        Some((lhs, q)) => if tok_is(t, q, Token::SingleEquals) && forward(t, p, q) {
            let (a2, r2) = sp_expression(t, a1, q + 1);
            lemma_expression(t, a1, q + 1);
            lemma_grows_trans(a, a1, a2);
        },
        None => {},
    }
}

proof fn lemma_shorthand(t: Toks, a: Arena, p: int)
    requires
        has_literals(a),
    ensures
        grows(a, sp_shorthand(t, a, p).0),
        pair_result(sp_shorthand(t, a, p)),
    decreases t.len() - p, 59nat,
{
    let (a1, r) = sp_expression(t, a, p);
    lemma_expression(t, a, p);
    match r {
        Some((lhs, q)) => if forward(t, p, q) {
            match sp_shorthand_operator(t, q) {
                Some(op) => {
                    let (a2, r2) = sp_expression(t, a1, q + 1);
                    lemma_expression(t, a1, q + 1);
                    lemma_grows_trans(a, a1, a2);
                    match r2 {
                        Some((rhs, e)) => if forward(t, q + 1, e) {
                            let span = range_span(t, q, q + 1).spec_union(range_span(t, q + 1, e));
                            lemma_add_expr(a2, ExprNode::Binop(op, lhs, rhs), span);
                            lemma_grows_trans(a, a2, add_expr(a2, ExprNode::Binop(op, lhs, rhs), span).0);
                        },
                        None => {},
                    }
                },
                None => {},
            }
        },
        None => {},
    }
}

proof fn lemma_postfix(t: Toks, a: Arena, p: int)
    requires
        has_literals(a),
    ensures
        grows(a, sp_postfix(t, a, p).0),
        pair_result(sp_postfix(t, a, p)),
    decreases t.len() - p, 58nat,
{
    let (a1, r) = sp_expression(t, a, p);
    lemma_expression(t, a, p);
    match r {
        Some((lhs, q)) => if forward(t, p, q) {
            let span = range_span(t, q, q + 2);
            let add = ExprNode::Binop(crate::ast::BinaryOperator::Add, lhs, 3usize);
            let sub = ExprNode::Binop(crate::ast::BinaryOperator::Sub, lhs, 3usize);
            let not = ExprNode::Unop(crate::ast::UnaryOperator::UnaryNot, lhs);
            if tok_is(t, q, Token::Plus) && tok_is(t, q + 1, Token::Plus) {
                lemma_add_expr(a1, add, span);
                lemma_grows_trans(a, a1, add_expr(a1, add, span).0);
            } else if tok_is(t, q, Token::Minus) && tok_is(t, q + 1, Token::Minus) {
                lemma_add_expr(a1, sub, span);
                lemma_grows_trans(a, a1, add_expr(a1, sub, span).0);
            } else if tok_is(t, q, Token::Bang) && tok_is(t, q + 1, Token::Bang) {
                lemma_add_expr(a1, not, span);
                lemma_grows_trans(a, a1, add_expr(a1, not, span).0);
            }
        },
        None => {},
    }
}

proof fn lemma_return(t: Toks, a: Arena, p: int)
    requires
        has_literals(a),
    ensures
        grows(a, sp_return(t, a, p).0),
        stmt_result(sp_return(t, a, p)),
    decreases t.len() - p, 57nat,
{
    if tok_is(t, p, Token::Return) {
        let (a1, r) = sp_expression(t, a, p + 1);
        lemma_expression(t, a, p + 1);
        match r {
            Some((e, q)) => if forward(t, p + 1, q) {
                lemma_add_stmt(a1, StmtNode::Return(e), range_span(t, p, q));
                lemma_grows_trans(a, a1, add_stmt(a1, StmtNode::Return(e), range_span(t, p, q)).0);
            },
            None => {},
        }
    } else {
        lemma_grows_refl(a);
    }
}

proof fn lemma_expression_statement(t: Toks, a: Arena, p: int)
    requires
        has_literals(a),
    ensures
        grows(a, sp_expression_statement(t, a, p).0),
        stmt_result(sp_expression_statement(t, a, p)),
    decreases t.len() - p, 56nat,
{
    let (a1, r) = sp_expression(t, a, p);
    lemma_expression(t, a, p);
    match r {
        Some((e, q)) => if forward(t, p, q) {
            lemma_add_stmt(a1, StmtNode::Expression(e), range_span(t, p, q));
            lemma_grows_trans(a, a1, add_stmt(a1, StmtNode::Expression(e), range_span(t, p, q)).0);
        },
        None => {},
    }
}

proof fn lemma_block(t: Toks, a: Arena, p: int)
    requires
        has_literals(a),
    ensures
        grows(a, sp_block(t, a, p).0),
        stmt_result(sp_block(t, a, p)),
    decreases t.len() - p, 55nat,
{
    if tok_is(t, p, Token::LCurlyBrace) {
        let (a1, ids, q) = sp_statements(t, a, seq![], p + 1);
        lemma_statements(t, a, seq![], p + 1);
        if tok_is(t, q, Token::RCurlyBrace) {
            lemma_add_stmt(a1, StmtNode::Block(ids), range_span(t, p, q + 1));
            lemma_grows_trans(a, a1, add_stmt(a1, StmtNode::Block(ids), range_span(t, p, q + 1)).0);
        }
    } else {
        lemma_grows_refl(a);
    }
}

proof fn lemma_compound(t: Toks, a: Arena, p: int)
    requires
        has_literals(a),
    ensures
        grows(a, sp_compound(t, a, p).0),
        stmt_result(sp_compound(t, a, p)),
    decreases t.len() - p, 54nat,
{
    let (a1, r1) = sp_if_else(t, a, p);
    lemma_if_else(t, a, p);
    if r1 is None {
        let (a2, r2) = sp_if(t, a1, p);
        lemma_conditional(t, a1, p, Token::If, false);
        lemma_grows_trans(a, a1, a2);
        if r2 is None {
            let (a3, r3) = sp_switch(t, a2, p);
            lemma_switch(t, a2, p);
            lemma_grows_trans(a, a2, a3);
            if r3 is None {
                let (a4, r4) = sp_while(t, a3, p);
                lemma_conditional(t, a3, p, Token::While, true);
                lemma_grows_trans(a, a3, a4);
                if r4 is None {
                    lemma_for(t, a4, p);
                    lemma_grows_trans(a, a4, sp_for(t, a4, p).0);
                }
            }
        }
    }
}

proof fn lemma_if_else(t: Toks, a: Arena, p: int)
    requires
        has_literals(a),
    ensures
        grows(a, sp_if_else(t, a, p).0),
        stmt_result(sp_if_else(t, a, p)),
    decreases t.len() - p, 53nat,
{
    let (a1, r) = sp_if(t, a, p);
    lemma_conditional(t, a, p, Token::If, false);
    match r {
        Some((if_id, q)) => if tok_is(t, q, Token::Else) && forward(t, p, q) {
            lemma_else(t, a1, p, if_id, q);
            lemma_grows_trans(a, a1, sp_else(t, a1, p, if_id, q).0);
        },
        None => {},
    }
}

proof fn lemma_else(t: Toks, a: Arena, p: int, if_id: usize, q: int)
    requires
        has_literals(a),
        small(a) ==> if_id < a.statements.len(),
        small(a) ==> a.statements[if_id as int].0 is If,
    ensures
        grows(a, sp_else(t, a, p, if_id, q).0),
        stmt_result(sp_else(t, a, p, if_id, q)),
    decreases t.len() - q, 43nat,
{
    if 0 <= q < t.len() {
        let (a1, r) = sp_statement(t, a, q + 1);
        lemma_statement(t, a, q + 1);
        match r {
            Some((else_id, e)) => if forward(t, q + 1, e) {
                reveal(keeps);
                lemma_add_stmt(a1, StmtNode::IfElse(if_id, else_id), range_span(t, p, e));
                lemma_grows_trans(a, a1, add_stmt(a1, StmtNode::IfElse(if_id, else_id), range_span(t, p, e)).0);
            },
            None => {},
        }
    } else {
        lemma_grows_refl(a);
    }
}

proof fn lemma_conditional(t: Toks, a: Arena, p: int, keyword: Token, is_while: bool)
    requires
        has_literals(a),
    ensures
        grows(a, sp_conditional(t, a, p, keyword, is_while).0),
        stmt_result(sp_conditional(t, a, p, keyword, is_while)),
        !is_while && small(sp_conditional(t, a, p, keyword, is_while).0) ==>
            (sp_conditional(t, a, p, keyword, is_while).1 matches Some((id, _))
                ==> sp_conditional(t, a, p, keyword, is_while).0.statements[id as int].0 is If),
    decreases t.len() - p, 44nat,
{
    if tok_is(t, p, keyword) && tok_is(t, p + 1, Token::LParenthesis) {
        let (a1, r) = sp_expression(t, a, p + 2);
        lemma_expression(t, a, p + 2);
        match r {
            Some((c, q)) => if tok_is(t, q, Token::RParenthesis) && forward(t, p + 2, q) {
                let (a2, r2) = sp_statement(t, a1, q + 1);
                lemma_statement(t, a1, q + 1);
                lemma_grows_trans(a, a1, a2);
                match r2 {
                    Some((body, e)) => if forward(t, q + 1, e) {
                        let node = if is_while { StmtNode::While(c, body) } else { StmtNode::If(c, body) };
                        lemma_add_stmt(a2, node, range_span(t, p, e));
                        lemma_grows_trans(a, a2, add_stmt(a2, node, range_span(t, p, e)).0);
                    },
                    None => {},
                }
            },
            None => {},
        }
    } else {
        lemma_grows_refl(a);
    }
}

proof fn lemma_switch(t: Toks, a: Arena, p: int)
    requires
        has_literals(a),
    ensures
        grows(a, sp_switch(t, a, p).0),
        stmt_result(sp_switch(t, a, p)),
    decreases t.len() - p, 51nat,
{
    if tok_is(t, p, Token::Switch) {
        let (a1, r) = sp_expression(t, a, p + 1);
        lemma_expression(t, a, p + 1);
        match r {
            Some((m, q)) => if tok_is(t, q, Token::LCurlyBrace) && forward(t, p + 1, q) {
                lemma_switch_body(t, a1, p, m, q);
                lemma_grows_trans(a, a1, sp_switch_body(t, a1, p, m, q).0);
            },
            None => {},
        }
    } else {
        lemma_grows_refl(a);
    }
}

proof fn lemma_switch_body(t: Toks, a: Arena, p: int, m: usize, q: int)
    requires
        has_literals(a),
        small(a) ==> m < a.expressions.len(),
    ensures
        grows(a, sp_switch_body(t, a, p, m, q).0),
        stmt_result(sp_switch_body(t, a, p, m, q)),
    decreases t.len() - q, 43nat,
{
    if 0 <= q < t.len() {
        lemma_cases(t, a, seq![], q + 1);
        lemma_switch_tail(t, a, p, m, sp_cases(t, a, seq![], q + 1));
    } else {
        lemma_grows_refl(a);
    }
}

proof fn lemma_switch_tail(t: Toks, a: Arena, p: int, m: usize, cases: (Arena, Seq<CaseNode>, int))
    requires
        small(a) ==> m < a.expressions.len(),
        grows(a, cases.0),
        small(cases.0) ==> case_bodies_below(cases.1, cases.0.statements.len() as int),
    ensures
        grows(a, switch_tail(t, p, m, cases).0),
        stmt_result(switch_tail(t, p, m, cases)),
{
    let (a1, cs, e) = cases;
    if tok_is(t, e, Token::RCurlyBrace) {
        lemma_add_stmt(a1, StmtNode::Switch(m, cs), range_span(t, p, e + 1));
        lemma_grows_trans(a, a1, add_stmt(a1, StmtNode::Switch(m, cs), range_span(t, p, e + 1)).0);
    }
}

proof fn lemma_cases(t: Toks, a: Arena, cases: Seq<CaseNode>, p: int)
    requires
        has_literals(a),
        small(a) ==> case_bodies_below(cases, a.statements.len() as int),
    ensures
        grows(a, sp_cases(t, a, cases, p).0),
        small(sp_cases(t, a, cases, p).0) ==> case_bodies_below(sp_cases(t, a, cases, p).1, sp_cases(t, a, cases, p).0.statements.len() as int),
    decreases t.len() - p, 50nat,
{
    let (a1, r1) = sp_case(t, a, p);
    lemma_case(t, a, p);
    let (a2, r) = if r1 is Some {
        (a1, r1)
    } else {
        lemma_default_case(t, a1, p);
        lemma_grows_trans(a, a1, sp_default_case(t, a1, p).0);
        sp_default_case(t, a1, p)
    };
    assert(grows(a, a2) && case_result((a2, r)));
    match r {
        Some((c, q)) => if p < q <= t.len() {
            let more = cases.push(c);
            assert(small(a2) ==> case_bodies_below(more, a2.statements.len() as int)) by {
                if small(a2) {
                    assert forall|k: int| 0 <= k < more.len() implies ids_below((#[trigger] more[k]).1, a2.statements.len() as int) by {
                        if k < cases.len() {
                            assert(ids_below(cases[k].1, a.statements.len() as int));
                        }
                    }
                }
            }
            lemma_cases(t, a2, more, q);
            lemma_grows_trans(a, a2, sp_cases(t, a2, more, q).0);
        } else {
            lemma_cases_keep(cases, a.statements.len() as int, a2.statements.len() as int);
        },
        None => {
            lemma_cases_keep(cases, a.statements.len() as int, a2.statements.len() as int);
        },
    }
}

proof fn lemma_cases_keep(cases: Seq<CaseNode>, b1: int, b2: int)
    requires
        b1 <= b2,
    ensures
        case_bodies_below(cases, b1) ==> case_bodies_below(cases, b2),
{
    if case_bodies_below(cases, b1) {
        assert forall|k: int| 0 <= k < cases.len() implies ids_below((#[trigger] cases[k]).1, b2) by {
            assert(ids_below(cases[k].1, b1));
        }
    }
}

proof fn lemma_case(t: Toks, a: Arena, p: int)
    requires
        has_literals(a),
    ensures
        grows(a, sp_case(t, a, p).0),
        case_result(sp_case(t, a, p)),
    decreases t.len() - p, 49nat,
{
    if tok_is(t, p, Token::Case) && 0 <= p + 1 < t.len() && t[p + 1].0 is NumberLiteral && tok_is(t, p + 2, Token::Colon) {
        lemma_statements(t, a, seq![], p + 3);
    } else {
        lemma_grows_refl(a);
    }
}

proof fn lemma_default_case(t: Toks, a: Arena, p: int)
    requires
        has_literals(a),
    ensures
        grows(a, sp_default_case(t, a, p).0),
        case_result(sp_default_case(t, a, p)),
    decreases t.len() - p, 48nat,
{
    if tok_is(t, p, Token::Default) && tok_is(t, p + 1, Token::Colon) {
        lemma_statements(t, a, seq![], p + 2);
    } else {
        lemma_grows_refl(a);
    }
}

proof fn lemma_for_init(t: Toks, a: Arena, p: int)
    requires
        has_literals(a),
    ensures
        grows(a, sp_for_init(t, a, p).0),
        stmt_result(sp_for_init(t, a, p)),
    decreases t.len() - p, 67nat,
{
    let (a1, r1) = sp_let(t, a, p);
    lemma_let(t, a, p);
    if r1 is None {
        lemma_assignment_statement(t, a1, p);
        lemma_grows_trans(a, a1, sp_assignment_statement(t, a1, p).0);
    }
}

proof fn lemma_for(t: Toks, a: Arena, p: int)
    requires
        has_literals(a),
    ensures
        grows(a, sp_for(t, a, p).0),
        stmt_result(sp_for(t, a, p)),
    decreases t.len() - p, 46nat,
{
    if tok_is(t, p, Token::For) && tok_is(t, p + 1, Token::LParenthesis) {
        let (a1, r) = sp_for_init(t, a, p + 2);
        lemma_for_init(t, a, p + 2);
        match r {
            Some((init, q)) => if tok_is(t, q, Token::Semicolon) && forward(t, p + 2, q) {
                lemma_for_condition(t, a1, p, init, q);
                lemma_grows_trans(a, a1, sp_for_condition(t, a1, p, init, q).0);
            },
            None => {},
        }
    } else {
        lemma_grows_refl(a);
    }
}

proof fn lemma_for_condition(t: Toks, a: Arena, p: int, init: usize, q: int)
    requires
        has_literals(a),
        small(a) ==> init < a.statements.len(),
    ensures
        grows(a, sp_for_condition(t, a, p, init, q).0),
        stmt_result(sp_for_condition(t, a, p, init, q)),
    decreases t.len() - q, 43nat,
{
    if 0 <= q < t.len() {
        let (a1, r) = sp_expression(t, a, q + 1);
        lemma_expression(t, a, q + 1);
        match r {
            Some((c, q2)) => if tok_is(t, q2, Token::Semicolon) && forward(t, q + 1, q2) {
                lemma_for_step(t, a1, p, init, c, q2);
                lemma_grows_trans(a, a1, sp_for_step(t, a1, p, init, c, q2).0);
            },
            None => {},
        }
    } else {
        lemma_grows_refl(a);
    }
}

proof fn lemma_for_step(t: Toks, a: Arena, p: int, init: usize, c: usize, q: int)
    requires
        has_literals(a),
        small(a) ==> init < a.statements.len() && c < a.expressions.len(),
    ensures
        grows(a, sp_for_step(t, a, p, init, c, q).0),
        stmt_result(sp_for_step(t, a, p, init, c, q)),
    decreases t.len() - q, 42nat,
{
    if 0 <= q < t.len() {
        let (a1, r) = sp_simple(t, a, q + 1);
        lemma_simple(t, a, q + 1);
        match r {
            Some((step, q3)) => if tok_is(t, q3, Token::RParenthesis) && forward(t, q + 1, q3) {
                lemma_for_body(t, a1, p, (init, c, step), q3);
                lemma_grows_trans(a, a1, sp_for_body(t, a1, p, (init, c, step), q3).0);
            },
            None => {},
        }
    } else {
        lemma_grows_refl(a);
    }
}

proof fn lemma_for_body(t: Toks, a: Arena, p: int, header: (usize, usize, usize), q: int)
    requires
        has_literals(a),
        small(a) ==> header.0 < a.statements.len() && header.1 < a.expressions.len() && header.2 < a.statements.len(),
    ensures
        grows(a, sp_for_body(t, a, p, header, q).0),
        stmt_result(sp_for_body(t, a, p, header, q)),
    decreases t.len() - q, 41nat,
{
    if 0 <= q < t.len() {
        lemma_statement(t, a, q + 1);
        lemma_for_tail(t, a, p, header, q, sp_statement(t, a, q + 1));
    } else {
        lemma_grows_refl(a);
    }
}

proof fn lemma_for_tail(t: Toks, a: Arena, p: int, header: (usize, usize, usize), q: int, body: Attempt<usize>)
    requires
        small(a) ==> header.0 < a.statements.len() && header.1 < a.expressions.len() && header.2 < a.statements.len(),
        grows(a, body.0),
        stmt_result(body),
    ensures
        grows(a, for_tail(t, p, header, q, body).0),
        stmt_result(for_tail(t, p, header, q, body)),
{
    let (a1, r) = body;
    match r {
        Some((b, e)) => if forward(t, q + 1, e) {
            let node = StmtNode::For(header.0, header.1, header.2, b);
            lemma_add_stmt(a1, node, range_span(t, p, e));
            lemma_grows_trans(a, a1, add_stmt(a1, node, range_span(t, p, e)).0);
        },
        None => {},
    }
}

// ****************************************** FUNCTIONS *******************************************

proof fn lemma_function(t: Toks, a: Arena, p: int)
    requires
        has_literals(a),
    ensures
        grows(a, sp_function(t, a, p).0),
        small(sp_function(t, a, p).0) ==> (sp_function(t, a, p).1 matches Some((id, _)) ==> id < sp_function(t, a, p).0.functions.len()),
{
    if 0 <= p < t.len() && t[p].0 is Identifier {
        match sp_parameter_list(t, p + 1) {
            Some((params, q1)) => {
                let (return_type, q2) = sp_return_type(t, q1);
                if tok_is(t, q2, Token::LCurlyBrace) && forward(t, p, q2) {
                    let (a1, body, q3) = sp_statements(t, a, seq![], q2 + 1);
                    lemma_statements(t, a, seq![], q2 + 1);
                    if tok_is(t, q3, Token::RCurlyBrace) {
                        let node = FuncNode {
                            name: t[p].0->Identifier_0@,
                            name_span: range_span(t, p, p + 1),
                            return_type,
                            params,
                            body,
                        };
                        lemma_add_func(a1, node, range_span(t, p, q3 + 1));
                        lemma_grows_trans(a, a1, add_func(a1, node, range_span(t, p, q3 + 1)).0);
                    }
                } else {
                    lemma_grows_refl(a);
                }
            },
            None => lemma_grows_refl(a),
        }
    } else {
        lemma_grows_refl(a);
    }
}

proof fn lemma_functions(t: Toks, a: Arena, ids: Seq<usize>, p: int)
    requires
        has_literals(a),
        small(a) ==> ids_below(ids, a.functions.len() as int),
    ensures
        grows(a, sp_functions(t, a, ids, p).0),
        small(sp_functions(t, a, ids, p).0) ==> ids_below(sp_functions(t, a, ids, p).1, sp_functions(t, a, ids, p).0.functions.len() as int),
    decreases t.len() - p,
{
    let (a1, r) = sp_function(t, a, p);
    lemma_function(t, a, p);
    match r {
        Some((id, q)) => if p < q <= t.len() {
            lemma_functions(t, a1, ids.push(id), q);
            lemma_grows_trans(a, a1, sp_functions(t, a1, ids.push(id), q).0);
        },
        None => {},
    }
}

/// Parsing only adds nodes to the store: every node that was there stays where it was. If every
/// node of the store referred only to nodes stored before it, the same holds after parsing, and
/// the functions of the program are in the store. (The store must hold the predefined literals,
/// and its size must fit the ids, as every store in memory does.)
pub proof fn law_parsing_only_adds_nodes(t: Toks, a: Arena, source_id: SourceID)
    requires
        has_literals(a),
    ensures
        ({
            let (b, program) = sp_program(t, a, source_id);
            &&& a.expressions.len() <= b.expressions.len()
            &&& a.statements.len() <= b.statements.len()
            &&& a.functions.len() <= b.functions.len()
            &&& forall|i: int| 0 <= i < a.expressions.len() ==> b.expressions[i] == a.expressions[i]
            &&& forall|i: int| 0 <= i < a.statements.len() ==> b.statements[i] == a.statements[i]
            &&& forall|i: int| 0 <= i < a.functions.len() ==> b.functions[i] == a.functions[i]
            &&& closed(a) && small(b) ==> closed(b)
            &&& small(b) ==> (program matches Some((ids, _)) ==> ids_below(ids, b.functions.len() as int))
        }),
{
    if t.len() == 0 {
        lemma_grows_refl(a);
    } else {
        lemma_functions(t, a, seq![], 0);
    }
    reveal(keeps);
}

/// Parsing builds an `if`-`else` statement only on an `if` statement: in what a parse leaves,
/// the first branch of every `if`-`else` statement is an `if` statement, and both branches are
/// stored before it. (The store must have that shape before, as a new one has, hold the
/// predefined literals, and its size must fit the ids.)
pub proof fn law_if_else_starts_with_if(t: Toks, a: Arena, source_id: SourceID)
    requires
        has_literals(a),
        forall|k: int| 0 <= k < a.statements.len() ==>
            ((#[trigger] a.statements[k]).0 matches StmtNode::IfElse(x, y) ==> x < k && y < k && a.statements[x as int].0 is If),
    ensures
        ({
            let b = sp_program(t, a, source_id).0;
            small(b) ==> forall|k: int| 0 <= k < b.statements.len() ==>
                ((#[trigger] b.statements[k]).0 matches StmtNode::IfElse(x, y) ==> x < k && y < k && b.statements[x as int].0 is If)
        }),
{
    reveal(if_else_shaped);
    assert(if_else_shaped(a));
    if t.len() == 0 {
        lemma_grows_refl(a);
    } else {
        lemma_functions(t, a, seq![], 0);
    }
}

/// The same for a single statement: after `statement` parses at `p`, the first branch of every
/// `if`-`else` statement of the store is an `if` statement, and both branches are stored before
/// it. (The store must have that shape before, as a new one has, and hold the predefined
/// literals, and its size must fit the ids.)
pub proof fn law_statement_if_else_starts_with_if(t: Toks, a: Arena, p: int)
    requires
        has_literals(a),
        forall|k: int| 0 <= k < a.statements.len() ==>
            ((#[trigger] a.statements[k]).0 matches StmtNode::IfElse(x, y) ==> x < k && y < k && a.statements[x as int].0 is If),
    ensures
        ({
            let b = sp_statement(t, a, p).0;
            small(b) ==> forall|k: int| 0 <= k < b.statements.len() ==>
                ((#[trigger] b.statements[k]).0 matches StmtNode::IfElse(x, y) ==> x < k && y < k && b.statements[x as int].0 is If)
        }),
{
    reveal(if_else_shaped);
    assert(if_else_shaped(a));
    lemma_statement(t, a, p);
}

// ***************************************** OPERATORS ******************************************

/// The source text of a binary operator.
pub open spec fn operator_text(op: BinaryOperator) -> Seq<u8> {
    match op {
        BinaryOperator::Mul => seq!['*' as u8],
        BinaryOperator::Div => seq!['/' as u8],
        BinaryOperator::Mod => seq!['%' as u8],
        BinaryOperator::Add => seq!['+' as u8],
        BinaryOperator::Sub => seq!['-' as u8],
        BinaryOperator::And => seq!['&' as u8, '&' as u8],
        BinaryOperator::Or => seq!['|' as u8, '|' as u8],
        BinaryOperator::Equals => seq!['=' as u8, '=' as u8],
        BinaryOperator::GreaterThan => seq!['>' as u8],
        BinaryOperator::LessThan => seq!['<' as u8],
        BinaryOperator::GreaterThanOrEquals => seq!['>' as u8, '=' as u8],
        BinaryOperator::LessThanOrEquals => seq!['<' as u8, '=' as u8],
        BinaryOperator::NotEquals => seq!['!' as u8, '=' as u8],
    }
}

/// The binding level of a binary operator: 1 for `* / %`, 2 for `+ - && ||`, 3 for the
/// comparisons.
pub open spec fn operator_level(op: BinaryOperator) -> nat {
    match op {
        BinaryOperator::Mul | BinaryOperator::Div | BinaryOperator::Mod => 1,
        BinaryOperator::Add | BinaryOperator::Sub | BinaryOperator::And | BinaryOperator::Or => 2,
        _ => 3,
    }
}

/// The binary operator read at a token is the one the token spells, at that operator's level;
/// and each operator's token is read as that operator at its level.
pub proof fn law_operator_is_the_one_spelled(t: Toks, p: int, level: nat, op: BinaryOperator)
    ensures
        sp_operator(t, p, level) matches Some(o) ==> 0 <= p < t.len() && fixed_text(t[p].0) == operator_text(o)
            && (1 <= level <= 3 ==> operator_level(o) == level),
        0 <= p < t.len() && fixed_text(t[p].0) == operator_text(op) && !(t[p].0 is Identifier)
            && !(t[p].0 is TypeIdentifier) && !(t[p].0 is NumberLiteral) && !(t[p].0 is StringLiteral)
            ==> sp_operator(t, p, operator_level(op)) == Some(op),
{
    if 0 <= p < t.len() {
        let k = t[p].0;
        assert(fixed_text(k) == operator_text(op) && !(k is Identifier) && !(k is TypeIdentifier)
            && !(k is NumberLiteral) && !(k is StringLiteral) ==> k == match op {
                BinaryOperator::Mul => Token::Asterisk,
                BinaryOperator::Div => Token::Slash,
                BinaryOperator::Mod => Token::Percent,
                BinaryOperator::Add => Token::Plus,
                BinaryOperator::Sub => Token::Minus,
                BinaryOperator::And => Token::DoubleAmpersand,
                BinaryOperator::Or => Token::DoublePipe,
                BinaryOperator::Equals => Token::DoubleEquals,
                BinaryOperator::GreaterThan => Token::GreaterThan,
                BinaryOperator::LessThan => Token::LessThan,
                BinaryOperator::GreaterThanOrEquals => Token::GreaterThanOrEquals,
                BinaryOperator::LessThanOrEquals => Token::LessThanOrEquals,
                BinaryOperator::NotEquals => Token::NotEquals,
            }) by {
            if fixed_text(k) == operator_text(op) && !(k is Identifier) && !(k is TypeIdentifier)
                && !(k is NumberLiteral) && !(k is StringLiteral) {
                let a = fixed_text(k);
                let b = operator_text(op);
                assert(a.len() == b.len());
                assert(a[0] == b[0]);
                if b.len() == 2 {
                    assert(a[1] == b[1]);
                }
            }
        }
    }
}

/// The operator of a shorthand assignment `lvalue op= value` is the one the token spells without
/// its `=`.
pub proof fn law_shorthand_operator_is_the_one_spelled(t: Toks, p: int)
    ensures
        sp_shorthand_operator(t, p) matches Some(o) ==> 0 <= p < t.len()
            && fixed_text(t[p].0) == operator_text(o) + seq!['=' as u8]
            && operator_level(o) <= 2 && o != BinaryOperator::And && o != BinaryOperator::Or,
{
    if let Some(o) = sp_shorthand_operator(t, p) {
        assert(fixed_text(t[p].0) =~= operator_text(o) + seq!['=' as u8]);
    }
}

// ******************************************** WALKS *********************************************

proof fn lemma_expression_children(e: Expression, i: int)
    requires
        ids_below(expr_refs(expr_node(e)), i),
    ensures
        ids_before(expression_children(e), i),
{
    let refs = expr_refs(expr_node(e));
    let children = expression_children(e);
    assert forall|k: int| 0 <= k < children.len() implies #[trigger] children[k] < i by {
        match e {
            Expression::Call(c) => {
                assert(children[k] == refs[k + 1]);
            },
            _ => {
                assert(children[k] == refs[k]);
            },
        }
    }
}

proof fn lemma_statement_children(s: Statement, i: int, n_expressions: int)
    requires
        stmt_refs_below(stmt_node(s), i, n_expressions),
    ensures
        children_before(statement_children(s), i, n_expressions),
{
    let children = statement_children(s);
    assert forall|k: int| 0 <= k < children.len() implies match #[trigger] children[k] {
        Child::Statement(c) => c < i,
        Child::Expression(c) => c < n_expressions,
    } by {
        match s {
            Statement::Block(ids) => {
                assert(children[k] == Child::Statement(ids@[k]));
            },
            _ => {},
        }
    }
}

/// A store whose nodes refer only to nodes stored before them can be walked.
pub proof fn lemma_closed_store_can_be_walked(store: ASTStore)
    requires
        closed(store.arena()),
    ensures
        store.well_formed_tree(),
        forall|id: int| 0 <= id < store.statements@.len() ==> #[trigger] store.statement_in_store(id),
        forall|id: int| 0 <= id < store.functions@.len() ==> #[trigger] store.function_in_store(id),
{
    reveal(closed);
    let a = store.arena();
    assert forall|i: int| 0 <= i < store.expressions@.len() implies ids_before(expression_children(#[trigger] store.expressions@[i].inner), i) by {
        assert(a.expressions[i] == (expr_node(store.expressions@[i].inner), store.expressions@[i].span));
        lemma_expression_children(store.expressions@[i].inner, i);
    }
    assert forall|i: int| 0 <= i < store.statements@.len() implies
        children_before(statement_children(#[trigger] store.statements@[i].inner), i, store.expressions@.len() as int) by {
        assert(a.statements[i] == (stmt_node(store.statements@[i].inner), store.statements@[i].span));
        lemma_statement_children(store.statements@[i].inner, i, store.expressions@.len() as int);
    }
    assert forall|i: int| 0 <= i < store.functions@.len() implies ids_before((#[trigger] store.functions@[i]).inner.body@, store.statements@.len() as int) by {
        assert(a.functions[i].0.body == store.functions@[i].inner.body@);
        assert(ids_below(a.functions[i].0.body, a.statements.len() as int));
    }
    store.lemma_well_formed_tree_can_be_walked();
}

/// A new store holds the predefined literals, which refer to nothing.
pub proof fn lemma_new_store_closed(store: ASTStore)
    requires
        store.arena().functions.len() == 0,
        store.arena().statements.len() == 0,
        store.arena().expressions.len() == 4,
        forall|i: int| 0 <= i < 4 ==> expr_refs(#[trigger] store.arena().expressions[i].0).len() == 0,
    ensures
        closed(store.arena()),
        has_literals(store.arena()),
{
    reveal(closed);
}

} // verus!
