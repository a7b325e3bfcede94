//! The grammar of the language, as functions from a token sequence, a store and a position to
//! the store after the attempt and, on success, the result and the position after it.
//!
//! Alternatives are tried in order and the first that succeeds is taken; a failed attempt
//! consumes no tokens, but the nodes it stored stay in the store. Every node is stored when the
//! rule that builds it succeeds, after the nodes of its parts.
use vstd::prelude::*;

use crate::ast::{BinaryOperator, UnaryOperator};
use crate::ast_store::{Arena, CaseNode, ExprNode, FuncNode, ParamNode, StmtNode};
use crate::span::SourceID;
use crate::parser::lexer::Token;
use crate::span::SourceIDSpan;

verus! {

/// The tokens of a source with their spans.
pub type Toks = Seq<(Token, SourceIDSpan)>;

/// The store after an attempt, and on success the result with the position after it.
pub type Attempt<T> = (Arena, Option<(T, int)>);

/// Whether the token at `p` is the fixed token `k`.
pub open spec fn tok_is(t: Toks, p: int, k: Token) -> bool {
    0 <= p < t.len() && t[p].0 == k
}

/// The span of the tokens `a..b`: from the start of token `a` to the end of token `b - 1`. At the
/// end of the input it is the empty span at the end of the last token.
pub open spec fn range_span(t: Toks, a: int, b: int) -> SourceIDSpan {
    let eoi = t[t.len() - 1].1;
    if 0 <= a < t.len() {
        SourceIDSpan {
            context: eoi.context,
            start: t[a].1.start,
            end: if 0 < b <= t.len() { t[b - 1].1.end } else { eoi.end },
        }
    } else {
        SourceIDSpan { context: eoi.context, start: eoi.end, end: eoi.end }
    }
}

/// `p <= q <= t.len()`
pub open spec fn forward(t: Toks, p: int, q: int) -> bool {
    p <= q <= t.len()
}

pub open spec fn add_expr(a: Arena, n: ExprNode, s: SourceIDSpan) -> (Arena, usize) {
    (Arena { expressions: a.expressions.push((n, s)), ..a }, a.expressions.len() as usize)
}

pub open spec fn add_stmt(a: Arena, n: StmtNode, s: SourceIDSpan) -> (Arena, usize) {
    (Arena { statements: a.statements.push((n, s)), ..a }, a.statements.len() as usize)
}

pub open spec fn add_func(a: Arena, n: FuncNode, s: SourceIDSpan) -> (Arena, usize) {
    (Arena { functions: a.functions.push((n, s)), ..a }, a.functions.len() as usize)
}

// ***************************************** EXPRESSIONS ******************************************

/// `Identifier`, stored as an identifier expression.
pub open spec fn sp_identifier(t: Toks, a: Arena, p: int) -> Attempt<usize> {
    if 0 <= p < t.len() && t[p].0 is Identifier {
        let (a2, id) = add_expr(a, ExprNode::Identifier(t[p].0->Identifier_0@), range_span(t, p, p + 1));
        (a2, Some((id, p + 1)))
    } else {
        (a, None)
    }
}

/// A string, number, boolean or unit literal. Booleans and unit are the predefined literals.
pub open spec fn sp_literal(t: Toks, a: Arena, p: int) -> Attempt<usize> {
    if 0 <= p < t.len() && t[p].0 is StringLiteral {
        let (a2, id) = add_expr(a, ExprNode::Str(t[p].0->StringLiteral_0@), range_span(t, p, p + 1));
        (a2, Some((id, p + 1)))
    } else if 0 <= p < t.len() && t[p].0 is NumberLiteral {
        let (a2, id) = add_expr(a, ExprNode::Number(t[p].0->NumberLiteral_0@), range_span(t, p, p + 1));
        (a2, Some((id, p + 1)))
    } else if tok_is(t, p, Token::True) {
        (a, Some((1usize, p + 1)))
    } else if tok_is(t, p, Token::False) {
        (a, Some((2usize, p + 1)))
    } else if tok_is(t, p, Token::LParenthesis) && tok_is(t, p + 1, Token::RParenthesis) {
        (a, Some((0usize, p + 2)))
    } else {
        (a, None)
    }
}

/// An expression: the binary expression of the loosest level, with the other forms as fallbacks.
pub open spec fn sp_expression(t: Toks, a: Arena, p: int) -> Attempt<usize>
    decreases t.len() - p, 30nat,
{
    let (a3, r3) = sp_binary(t, a, p, 3);
    if r3 is Some {
        (a3, r3)
    } else {
        let (a2, r2) = sp_binary(t, a3, p, 2);
        if r2 is Some {
            (a2, r2)
        } else {
            let (a1, r1) = sp_binary(t, a2, p, 1);
            if r1 is Some {
                (a1, r1)
            } else {
                let (a0, r0) = sp_term(t, a1, p);
                if r0 is Some {
                    (a0, r0)
                } else {
                    sp_parenthesized(t, a0, p)
                }
            }
        }
    }
}

/// The operator of binding level `level` at `p`: 1 is `* / %`, 2 is `+ - && ||`, 3 is the
/// comparisons.
pub open spec fn sp_operator(t: Toks, p: int, level: nat) -> Option<BinaryOperator> {
    if level == 1 {
        if tok_is(t, p, Token::Asterisk) { Some(BinaryOperator::Mul) }
        else if tok_is(t, p, Token::Slash) { Some(BinaryOperator::Div) }
        else if tok_is(t, p, Token::Percent) { Some(BinaryOperator::Mod) }
        else { None }
    } else if level == 2 {
        if tok_is(t, p, Token::Plus) { Some(BinaryOperator::Add) }
        else if tok_is(t, p, Token::Minus) { Some(BinaryOperator::Sub) }
        else if tok_is(t, p, Token::DoubleAmpersand) { Some(BinaryOperator::And) }
        else if tok_is(t, p, Token::DoublePipe) { Some(BinaryOperator::Or) }
        else { None }
    } else {
        if tok_is(t, p, Token::DoubleEquals) { Some(BinaryOperator::Equals) }
        else if tok_is(t, p, Token::GreaterThan) { Some(BinaryOperator::GreaterThan) }
        else if tok_is(t, p, Token::LessThan) { Some(BinaryOperator::LessThan) }
        else if tok_is(t, p, Token::GreaterThanOrEquals) { Some(BinaryOperator::GreaterThanOrEquals) }
        else if tok_is(t, p, Token::LessThanOrEquals) { Some(BinaryOperator::LessThanOrEquals) }
        else if tok_is(t, p, Token::NotEquals) { Some(BinaryOperator::NotEquals) }
        else { None }
    }
}

/// Operands of level `level - 1` joined by operators of level `level`, grouped to the left;
/// level 0 is a term.
pub open spec fn sp_binary(t: Toks, a: Arena, p: int, level: nat) -> Attempt<usize>
    decreases t.len() - p, 21 + 2 * level,
{
    if level == 0 || level > 3 {
        sp_term(t, a, p)
    } else {
        let (a1, r) = sp_binary(t, a, p, (level - 1) as nat);
        match r {
            Some((lhs, q)) => if forward(t, p, q) {
                let (a2, id, end) = sp_fold(t, a1, level, lhs, range_span(t, p, q), q);
                (a2, Some((id, end)))
            } else {
                (a1, None)
            },
            None => (a1, None),
        }
    }
}

/// Repeatedly extends the operand `lhs` (with span `lhs_span`, ending at `q`) by an operator of
/// level `level` and an operand of the level below, storing one binary expression per step.
pub open spec fn sp_fold(t: Toks, a: Arena, level: nat, lhs: usize, lhs_span: SourceIDSpan, q: int) -> (Arena, usize, int)
    decreases t.len() - q, 20 + 2 * level,
{
    if q < 0 || q >= t.len() || level == 0 || level > 3 {
        (a, lhs, q)
    } else {
        match sp_operator(t, q, level) {
            None => (a, lhs, q),
            Some(op) => {
                let (a1, r) = sp_binary(t, a, q + 1, (level - 1) as nat);
                match r {
                    Some((rhs, e)) => if forward(t, q + 1, e) {
                        let span = lhs_span.spec_union(range_span(t, q, q + 1)).spec_union(range_span(t, q + 1, e));
                        let (a2, id) = add_expr(a1, ExprNode::Binop(op, lhs, rhs), span);
                        sp_fold(t, a2, level, id, span, e)
                    } else {
                        (a1, lhs, q)
                    },
                    None => (a1, lhs, q),
                }
            },
        }
    }
}

/// A term: a unary expression, a call, an identifier, a literal, a typed expression or a
/// parenthesized expression.
pub open spec fn sp_term(t: Toks, a: Arena, p: int) -> Attempt<usize>
    decreases t.len() - p, 20nat,
{
    let (a1, r1) = sp_unary(t, a, p);
    if r1 is Some {
        (a1, r1)
    } else {
        let (a2, r2) = sp_call(t, a1, p);
        if r2 is Some {
            (a2, r2)
        } else {
            let (a3, r3) = sp_identifier(t, a2, p);
            if r3 is Some {
                (a3, r3)
            } else {
                let (a4, r4) = sp_literal(t, a3, p);
                if r4 is Some {
                    (a4, r4)
                } else {
                    let (a5, r5) = sp_typed(t, a4, p);
                    if r5 is Some {
                        (a5, r5)
                    } else {
                        sp_parenthesized(t, a5, p)
                    }
                }
            }
        }
    }
}

/// `! term` or `- term`.
pub open spec fn sp_unary(t: Toks, a: Arena, p: int) -> Attempt<usize>
    decreases t.len() - p, 19nat,
{
    if tok_is(t, p, Token::Bang) || tok_is(t, p, Token::Minus) {
        let op = if tok_is(t, p, Token::Bang) { UnaryOperator::UnaryNot } else { UnaryOperator::UnaryMinus };
        let (a1, r) = sp_term(t, a, p + 1);
        match r {
            Some((term, q)) => if forward(t, p + 1, q) {
                let (a2, id) = add_expr(a1, ExprNode::Unop(op, term), range_span(t, p, q));
                (a2, Some((id, q)))
            } else {
                (a1, None)
            },
            None => (a1, None),
        }
    } else {
        (a, None)
    }
}

/// A callee (a parenthesized expression or an identifier) followed by an argument list.
pub open spec fn sp_call(t: Toks, a: Arena, p: int) -> Attempt<usize>
    decreases t.len() - p, 18nat,
{
    let (a1, callee) = sp_callee(t, a, p);
    match callee {
        Some((c, q)) => if forward(t, p, q) {
            let (a2, args) = sp_arguments(t, a1, q);
            match args {
                Some((ids, e)) => if forward(t, q, e) {
                    let (a3, id) = add_expr(a2, ExprNode::Call(c, ids), range_span(t, p, e));
                    (a3, Some((id, e)))
                } else {
                    (a2, None)
                },
                None => (a2, None),
            }
        } else {
            (a1, None)
        },
        None => (a1, None),
    }
}

pub open spec fn sp_callee(t: Toks, a: Arena, p: int) -> Attempt<usize>
    decreases t.len() - p, 17nat,
{
    let (a1, r) = sp_parenthesized(t, a, p);
    if r is Some {
        (a1, r)
    } else {
        sp_identifier(t, a1, p)
    }
}

/// `( expression )`; the result is the inner expression.
pub open spec fn sp_parenthesized(t: Toks, a: Arena, p: int) -> Attempt<usize>
    decreases t.len() - p, 16nat,
{
    if tok_is(t, p, Token::LParenthesis) {
        let (a1, r) = sp_expression(t, a, p + 1);
        match r {
            Some((e, q)) => if tok_is(t, q, Token::RParenthesis) && forward(t, p + 1, q) {
                (a1, Some((e, q + 1)))
            } else {
                (a1, None)
            },
            None => (a1, None),
        }
    } else {
        (a, None)
    }
}

/// `( expression, ..., expression )`, possibly empty, without a trailing comma.
pub open spec fn sp_arguments(t: Toks, a: Arena, p: int) -> Attempt<Seq<usize>>
    decreases t.len() - p, 15nat,
{
    if tok_is(t, p, Token::LParenthesis) {
        let (a1, first) = sp_expression(t, a, p + 1);
        let (a2, ids, q) = match first {
            Some((e, q1)) => if forward(t, p + 1, q1) {
                sp_more_arguments(t, a1, seq![e], q1)
            } else {
                (a1, Seq::<usize>::empty(), p + 1)
            },
            None => (a1, Seq::<usize>::empty(), p + 1),
        };
        if tok_is(t, q, Token::RParenthesis) {
            (a2, Some((ids, q + 1)))
        } else {
            (a2, None)
        }
    } else {
        (a, None)
    }
}

/// `, expression` repeated, after the arguments `ids` that end at `q`.
pub open spec fn sp_more_arguments(t: Toks, a: Arena, ids: Seq<usize>, q: int) -> (Arena, Seq<usize>, int)
    decreases t.len() - q, 14nat,
{
    if tok_is(t, q, Token::Comma) {
        let (a1, r) = sp_expression(t, a, q + 1);
        match r {
            Some((e, q1)) => if forward(t, q + 1, q1) {
                sp_more_arguments(t, a1, ids.push(e), q1)
            } else {
                (a1, ids, q)
            },
            None => (a1, ids, q),
        }
    } else {
        (a, ids, q)
    }
}

/// `TypeIdentifier expression`
pub open spec fn sp_typed(t: Toks, a: Arena, p: int) -> Attempt<usize>
    decreases t.len() - p, 13nat,
{
    if 0 <= p < t.len() && t[p].0 is TypeIdentifier {
        let (a1, r) = sp_expression(t, a, p + 1);
        match r {
            Some((e, q)) => if forward(t, p + 1, q) {
                let node = ExprNode::Typed(t[p].0->TypeIdentifier_0@, range_span(t, p, p + 1), e);
                let (a2, id) = add_expr(a1, node, range_span(t, p, q));
                (a2, Some((id, q)))
            } else {
                (a1, None)
            },
            None => (a1, None),
        }
    } else {
        (a, None)
    }
}

// ****************************************** STATEMENTS ******************************************

/// Statements, one after another, as long as one can be parsed; appended to `ids`.
pub open spec fn sp_statements(t: Toks, a: Arena, ids: Seq<usize>, p: int) -> (Arena, Seq<usize>, int)
    decreases t.len() - p, 70nat,
{
    let (a1, r) = sp_statement(t, a, p);
    match r {
        Some((id, q)) => if p < q <= t.len() {
            sp_statements(t, a1, ids.push(id), q)
        } else {
            (a1, ids, p)
        },
        None => (a1, ids, p),
    }
}

/// A simple statement and `;`, a block, or a compound statement.
pub open spec fn sp_statement(t: Toks, a: Arena, p: int) -> Attempt<usize>
    decreases t.len() - p, 69nat,
{
    let (a1, r1) = sp_single(t, a, p);
    if r1 is Some {
        (a1, r1)
    } else {
        let (a2, r2) = sp_block(t, a1, p);
        if r2 is Some {
            (a2, r2)
        } else {
            sp_compound(t, a2, p)
        }
    }
}

/// A simple statement followed by `;`.
pub open spec fn sp_single(t: Toks, a: Arena, p: int) -> Attempt<usize>
    decreases t.len() - p, 68nat,
{
    let (a1, r) = sp_simple(t, a, p);
    match r {
        Some((id, q)) => if tok_is(t, q, Token::Semicolon) && forward(t, p, q) {
            (a1, Some((id, q + 1)))
        } else {
            (a1, None)
        },
        None => (a1, None),
    }
}

/// `let`, `const`, an assignment, `return` with a value, `continue`, `break`, `return` without a
/// value (which returns the unit literal), an expression, or the empty statement.
pub open spec fn sp_simple(t: Toks, a: Arena, p: int) -> Attempt<usize>
    decreases t.len() - p, 67nat,
{
    let (a1, r1) = sp_let(t, a, p);
    if r1 is Some { (a1, r1) } else {
    let (a2, r2) = sp_const(t, a1, p);
    if r2 is Some { (a2, r2) } else {
    let (a3, r3) = sp_assignment_statement(t, a2, p);
    if r3 is Some { (a3, r3) } else {
    let (a4, r4) = sp_return(t, a3, p);
    if r4 is Some { (a4, r4) } else {
    if tok_is(t, p, Token::Continue) {
        let (a5, id) = add_stmt(a4, StmtNode::Continue, range_span(t, p, p + 1));
        (a5, Some((id, p + 1)))
    } else if tok_is(t, p, Token::Break) {
        let (a5, id) = add_stmt(a4, StmtNode::Break, range_span(t, p, p + 1));
        (a5, Some((id, p + 1)))
    } else if tok_is(t, p, Token::Return) {
        let (a5, id) = add_stmt(a4, StmtNode::Return(0usize), range_span(t, p, p + 1));
        (a5, Some((id, p + 1)))
    } else {
        let (a6, r6) = sp_expression_statement(t, a4, p);
        if r6 is Some { (a6, r6) } else {
            let (a7, id) = add_stmt(a6, StmtNode::Empty, range_span(t, p, p));
            (a7, Some((id, p)))
        }
    }
    }}}}
}

/// `let lvalue = value`
pub open spec fn sp_let(t: Toks, a: Arena, p: int) -> Attempt<usize>
    decreases t.len() - p, 66nat,
{
    if tok_is(t, p, Token::Let) {
        let (a1, r) = sp_assignment(t, a, p + 1);
        match r {
            Some(((lhs, rhs), q)) => if forward(t, p + 1, q) {
                let (a2, id) = add_stmt(a1, StmtNode::Let(lhs, rhs), range_span(t, p, q));
                (a2, Some((id, q)))
            } else {
                (a1, None)
            },
            None => (a1, None),
        }
    } else {
        (a, None)
    }
}

/// `const lvalue = value`
pub open spec fn sp_const(t: Toks, a: Arena, p: int) -> Attempt<usize>
    decreases t.len() - p, 65nat,
{
    if tok_is(t, p, Token::Const) {
        let (a1, r) = sp_assignment(t, a, p + 1);
        match r {
            Some(((lhs, rhs), q)) => if forward(t, p + 1, q) {
                let (a2, id) = add_stmt(a1, StmtNode::Const(lhs, rhs), range_span(t, p, q));
                (a2, Some((id, q)))
            } else {
                (a1, None)
            },
            None => (a1, None),
        }
    } else {
        (a, None)
    }
}

/// A plain, shorthand (`+=` ...) or postfix (`++` ...) assignment, stored as an assignment of the
/// value to the lvalue.
pub open spec fn sp_assignment_statement(t: Toks, a: Arena, p: int) -> Attempt<usize>
    decreases t.len() - p, 64nat,
{
    let (a1, r1) = sp_assignment(t, a, p);
    let (a3, r) = if r1 is Some { (a1, r1) } else {
        let (a2, r2) = sp_shorthand(t, a1, p);
        if r2 is Some { (a2, r2) } else { sp_postfix(t, a2, p) }
    };
    match r {
        Some(((lhs, rhs), q)) => if forward(t, p, q) {
            let (a4, id) = add_stmt(a3, StmtNode::Assignment(lhs, rhs), range_span(t, p, q));
            (a4, Some((id, q)))
        } else {
            (a3, None)
        },
        None => (a3, None),
    }
}

/// `expression = expression`
pub open spec fn sp_assignment(t: Toks, a: Arena, p: int) -> Attempt<(usize, usize)>
    decreases t.len() - p, 60nat,
{
    let (a1, r) = sp_expression(t, a, p);
    match r {
        Some((lhs, q)) => if tok_is(t, q, Token::SingleEquals) && forward(t, p, q) {
            let (a2, r2) = sp_expression(t, a1, q + 1);
            match r2 {
                Some((rhs, e)) => if forward(t, q + 1, e) { (a2, Some(((lhs, rhs), e))) } else { (a2, None) },
                None => (a2, None),
            }
        } else {
            (a1, None)
        },
        None => (a1, None),
    }
}

/// The operator of a shorthand assignment at `p`.
pub open spec fn sp_shorthand_operator(t: Toks, p: int) -> Option<BinaryOperator> {
    if tok_is(t, p, Token::PlusEquals) { Some(BinaryOperator::Add) }
    else if tok_is(t, p, Token::MinusEquals) { Some(BinaryOperator::Sub) }
    else if tok_is(t, p, Token::AsteriskEquals) { Some(BinaryOperator::Mul) }
    else if tok_is(t, p, Token::SlashEquals) { Some(BinaryOperator::Div) }
    else if tok_is(t, p, Token::PercentEquals) { Some(BinaryOperator::Mod) }
    else { None }
}

/// `lvalue op= expression`: the value is `lvalue op expression`, stored with the span of the
/// operator and the expression.
pub open spec fn sp_shorthand(t: Toks, a: Arena, p: int) -> Attempt<(usize, usize)>
    decreases t.len() - p, 59nat,
{
    let (a1, r) = sp_expression(t, a, p);
    match r {
        Some((lhs, q)) => if forward(t, p, q) {
            match sp_shorthand_operator(t, q) {
                Some(op) => {
                    let (a2, r2) = sp_expression(t, a1, q + 1);
                    match r2 {
                        Some((rhs, e)) => if forward(t, q + 1, e) {
                            let span = range_span(t, q, q + 1).spec_union(range_span(t, q + 1, e));
                            let (a3, id) = add_expr(a2, ExprNode::Binop(op, lhs, rhs), span);
                            (a3, Some(((lhs, id), e)))
                        } else {
                            (a2, None)
                        },
                        None => (a2, None),
                    }
                },
                None => (a1, None),
            }
        } else {
            (a1, None)
        },
        None => (a1, None),
    }
}

/// `lvalue++`, `lvalue--` or `lvalue!!`: the value is `lvalue + 1`, `lvalue - 1` or `!lvalue`,
/// stored with the span of the operator.
pub open spec fn sp_postfix(t: Toks, a: Arena, p: int) -> Attempt<(usize, usize)>
    decreases t.len() - p, 58nat,
{
    let (a1, r) = sp_expression(t, a, p);
    match r {
        Some((lhs, q)) => if forward(t, p, q) {
            let span = range_span(t, q, q + 2);
            if tok_is(t, q, Token::Plus) && tok_is(t, q + 1, Token::Plus) {
                let (a2, id) = add_expr(a1, ExprNode::Binop(BinaryOperator::Add, lhs, 3usize), span);
                (a2, Some(((lhs, id), q + 2)))
            } else if tok_is(t, q, Token::Minus) && tok_is(t, q + 1, Token::Minus) {
                let (a2, id) = add_expr(a1, ExprNode::Binop(BinaryOperator::Sub, lhs, 3usize), span);
                (a2, Some(((lhs, id), q + 2)))
            } else if tok_is(t, q, Token::Bang) && tok_is(t, q + 1, Token::Bang) {
                let (a2, id) = add_expr(a1, ExprNode::Unop(UnaryOperator::UnaryNot, lhs), span);
                (a2, Some(((lhs, id), q + 2)))
            } else {
                (a1, None)
            }
        } else {
            (a1, None)
        },
        None => (a1, None),
    }
}

/// `return expression`
pub open spec fn sp_return(t: Toks, a: Arena, p: int) -> Attempt<usize>
    decreases t.len() - p, 57nat,
{
    if tok_is(t, p, Token::Return) {
        let (a1, r) = sp_expression(t, a, p + 1);
        match r {
            Some((e, q)) => if forward(t, p + 1, q) {
                let (a2, id) = add_stmt(a1, StmtNode::Return(e), range_span(t, p, q));
                (a2, Some((id, q)))
            } else {
                (a1, None)
            },
            None => (a1, None),
        }
    } else {
        (a, None)
    }
}

/// An expression used as a statement.
pub open spec fn sp_expression_statement(t: Toks, a: Arena, p: int) -> Attempt<usize>
    decreases t.len() - p, 56nat,
{
    let (a1, r) = sp_expression(t, a, p);
    match r {
        Some((e, q)) => if forward(t, p, q) {
            let (a2, id) = add_stmt(a1, StmtNode::Expression(e), range_span(t, p, q));
            (a2, Some((id, q)))
        } else {
            (a1, None)
        },
        None => (a1, None),
    }
}

/// `{ statements }`
pub open spec fn sp_block(t: Toks, a: Arena, p: int) -> Attempt<usize>
    decreases t.len() - p, 55nat,
{
    if tok_is(t, p, Token::LCurlyBrace) {
        let (a1, ids, q) = sp_statements(t, a, seq![], p + 1);
        if tok_is(t, q, Token::RCurlyBrace) {
            let (a2, id) = add_stmt(a1, StmtNode::Block(ids), range_span(t, p, q + 1));
            (a2, Some((id, q + 1)))
        } else {
            (a1, None)
        }
    } else {
        (a, None)
    }
}

/// `if`-`else`, `if`, `switch`, `while` or `for`.
pub open spec fn sp_compound(t: Toks, a: Arena, p: int) -> Attempt<usize>
    decreases t.len() - p, 54nat,
{
    let (a1, r1) = sp_if_else(t, a, p);
    if r1 is Some { (a1, r1) } else {
    let (a2, r2) = sp_if(t, a1, p);
    if r2 is Some { (a2, r2) } else {
    let (a3, r3) = sp_switch(t, a2, p);
    if r3 is Some { (a3, r3) } else {
    let (a4, r4) = sp_while(t, a3, p);
    if r4 is Some { (a4, r4) } else {
    sp_for(t, a4, p)
    }}}}
}

/// `if statement else statement`, where the first part is an `if` statement.
pub open spec fn sp_if_else(t: Toks, a: Arena, p: int) -> Attempt<usize>
    decreases t.len() - p, 53nat,
{
    let (a1, r) = sp_if(t, a, p);
    match r {
        Some((if_id, q)) => if tok_is(t, q, Token::Else) && forward(t, p, q) {
            sp_else(t, a1, p, if_id, q)
        } else {
            (a1, None)
        },
        None => (a1, None),
    }
}

/// `else statement` at `q`, completing the `if` statement `if_id` that starts at `p`.
pub open spec fn sp_else(t: Toks, a: Arena, p: int, if_id: usize, q: int) -> Attempt<usize>
    decreases t.len() - q, 43nat,
{
    if 0 <= q < t.len() {
        let (a1, r) = sp_statement(t, a, q + 1);
        match r {
            Some((else_id, e)) => if forward(t, q + 1, e) {
                let (a2, id) = add_stmt(a1, StmtNode::IfElse(if_id, else_id), range_span(t, p, e));
                (a2, Some((id, e)))
            } else {
                (a1, None)
            },
            None => (a1, None),
        }
    } else {
        (a, None)
    }
}

/// `keyword ( expression ) statement`, stored as a `while` or an `if` statement.
pub open spec fn sp_conditional(t: Toks, a: Arena, p: int, keyword: Token, is_while: bool) -> Attempt<usize>
    decreases t.len() - p, 44nat,
{
    if tok_is(t, p, keyword) && tok_is(t, p + 1, Token::LParenthesis) {
        let (a1, r) = sp_expression(t, a, p + 2);
        match r {
            Some((c, q)) => if tok_is(t, q, Token::RParenthesis) && forward(t, p + 2, q) {
                let (a2, r2) = sp_statement(t, a1, q + 1);
                match r2 {
                    Some((body, e)) => if forward(t, q + 1, e) {
                        let node = if is_while { StmtNode::While(c, body) } else { StmtNode::If(c, body) };
                        let (a3, id) = add_stmt(a2, node, range_span(t, p, e));
                        (a3, Some((id, e)))
                    } else {
                        (a2, None)
                    },
                    None => (a2, None),
                }
            } else {
                (a1, None)
            },
            None => (a1, None),
        }
    } else {
        (a, None)
    }
}

/// `if ( expression ) statement`
pub open spec fn sp_if(t: Toks, a: Arena, p: int) -> Attempt<usize>
    decreases t.len() - p, 52nat,
{
    sp_conditional(t, a, p, Token::If, false)
}

/// `while ( expression ) statement`
pub open spec fn sp_while(t: Toks, a: Arena, p: int) -> Attempt<usize>
    decreases t.len() - p, 52nat,
{
    sp_conditional(t, a, p, Token::While, true)
}

/// `switch expression { cases }`
pub open spec fn sp_switch(t: Toks, a: Arena, p: int) -> Attempt<usize>
    decreases t.len() - p, 51nat,
{
    if tok_is(t, p, Token::Switch) {
        let (a1, r) = sp_expression(t, a, p + 1);
        match r {
            Some((m, q)) => if tok_is(t, q, Token::LCurlyBrace) && forward(t, p + 1, q) {
                sp_switch_body(t, a1, p, m, q)
            } else {
                (a1, None)
            },
            None => (a1, None),
        }
    } else {
        (a, None)
    }
}

/// `{ cases }` at `q`, completing the `switch` on `m` that starts at `p`.
pub open spec fn sp_switch_body(t: Toks, a: Arena, p: int, m: usize, q: int) -> Attempt<usize>
    decreases t.len() - q, 43nat,
{
    if 0 <= q < t.len() {
        switch_tail(t, p, m, sp_cases(t, a, seq![], q + 1))
    } else {
        (a, None)
    }
}

/// The `switch` on `m` that starts at `p`, given its cases (with the store after them and the
/// position after them), which must be followed by `}`.
pub open spec fn switch_tail(t: Toks, p: int, m: usize, cases: (Arena, Seq<CaseNode>, int)) -> Attempt<usize> {
    let (a1, cs, e) = cases;
    if tok_is(t, e, Token::RCurlyBrace) {
        let (a2, id) = add_stmt(a1, StmtNode::Switch(m, cs), range_span(t, p, e + 1));
        (a2, Some((id, e + 1)))
    } else {
        (a1, None)
    }
}

/// Cases (`case` or `default`), one after another, as long as one can be parsed.
pub open spec fn sp_cases(t: Toks, a: Arena, cases: Seq<CaseNode>, p: int) -> (Arena, Seq<CaseNode>, int)
    decreases t.len() - p, 50nat,
{
    let (a1, r1) = sp_case(t, a, p);
    let (a2, r) = if r1 is Some { (a1, r1) } else { sp_default_case(t, a1, p) };
    match r {
        Some((c, q)) => if p < q <= t.len() {
            sp_cases(t, a2, cases.push(c), q)
        } else {
            (a2, cases, p)
        },
        None => (a2, cases, p),
    }
}

/// `case number : statements`
pub open spec fn sp_case(t: Toks, a: Arena, p: int) -> Attempt<CaseNode>
    decreases t.len() - p, 49nat,
{
    if tok_is(t, p, Token::Case) && 0 <= p + 1 < t.len() && t[p + 1].0 is NumberLiteral && tok_is(t, p + 2, Token::Colon) {
        let (a1, ids, q) = sp_statements(t, a, seq![], p + 3);
        let value = (t[p + 1].0->NumberLiteral_0@, range_span(t, p + 1, p + 2));
        (a1, Some(((Some(value), ids, range_span(t, p, q)), q)))
    } else {
        (a, None)
    }
}

/// `default : statements`
pub open spec fn sp_default_case(t: Toks, a: Arena, p: int) -> Attempt<CaseNode>
    decreases t.len() - p, 48nat,
{
    if tok_is(t, p, Token::Default) && tok_is(t, p + 1, Token::Colon) {
        let (a1, ids, q) = sp_statements(t, a, seq![], p + 2);
        (a1, Some(((None, ids, range_span(t, p, q)), q)))
    } else {
        (a, None)
    }
}

/// The first part of a `for` header: a `let` or an assignment statement.
pub open spec fn sp_for_init(t: Toks, a: Arena, p: int) -> Attempt<usize>
    decreases t.len() - p, 67nat,
{
    let (a1, r1) = sp_let(t, a, p);
    if r1 is Some { (a1, r1) } else { sp_assignment_statement(t, a1, p) }
}

/// `for ( init ; condition ; step ) statement`, where the step is a simple statement.
pub open spec fn sp_for(t: Toks, a: Arena, p: int) -> Attempt<usize>
    decreases t.len() - p, 46nat,
{
    if tok_is(t, p, Token::For) && tok_is(t, p + 1, Token::LParenthesis) {
        let (a1, r) = sp_for_init(t, a, p + 2);
        match r {
            Some((init, q)) => if tok_is(t, q, Token::Semicolon) && forward(t, p + 2, q) {
                sp_for_condition(t, a1, p, init, q)
            } else {
                (a1, None)
            },
            None => (a1, None),
        }
    } else {
        (a, None)
    }
}

/// `condition ;` after the `;` at `q` of the `for` statement that starts at `p`.
pub open spec fn sp_for_condition(t: Toks, a: Arena, p: int, init: usize, q: int) -> Attempt<usize>
    decreases t.len() - q, 43nat,
{
    if 0 <= q < t.len() {
        let (a1, r) = sp_expression(t, a, q + 1);
        match r {
            Some((c, q2)) => if tok_is(t, q2, Token::Semicolon) && forward(t, q + 1, q2) {
                sp_for_step(t, a1, p, init, c, q2)
            } else {
                (a1, None)
            },
            None => (a1, None),
        }
    } else {
        (a, None)
    }
}

/// `step )` after the second `;` (at `q`) of the `for` statement that starts at `p`.
pub open spec fn sp_for_step(t: Toks, a: Arena, p: int, init: usize, c: usize, q: int) -> Attempt<usize>
    decreases t.len() - q, 42nat,
{
    if 0 <= q < t.len() {
        let (a1, r) = sp_simple(t, a, q + 1);
        match r {
            Some((step, q3)) => if tok_is(t, q3, Token::RParenthesis) && forward(t, q + 1, q3) {
                sp_for_body(t, a1, p, (init, c, step), q3)
            } else {
                (a1, None)
            },
            None => (a1, None),
        }
    } else {
        (a, None)
    }
}

/// The body after the `)` (at `q`) of the `for` statement that starts at `p`, whose header holds
/// the ids of the initialization, the condition and the step.
pub open spec fn sp_for_body(t: Toks, a: Arena, p: int, header: (usize, usize, usize), q: int) -> Attempt<usize>
    decreases t.len() - q, 41nat,
{
    if 0 <= q < t.len() {
        for_tail(t, p, header, q, sp_statement(t, a, q + 1))
    } else {
        (a, None)
    }
}

/// The `for` statement that starts at `p`, given its header and the attempt at its body after
/// the `)` at `q`.
pub open spec fn for_tail(t: Toks, p: int, header: (usize, usize, usize), q: int, body: Attempt<usize>) -> Attempt<usize> {
    let (a1, r) = body;
    match r {
        Some((b, e)) => if forward(t, q + 1, e) {
            let (a2, id) = add_stmt(a1, StmtNode::For(header.0, header.1, header.2, b), range_span(t, p, e));
            (a2, Some((id, e)))
        } else {
            (a1, None)
        },
        None => (a1, None),
    }
}

// ****************************************** FUNCTIONS *******************************************

/// A formal parameter at `p`: `TypeIdentifier Identifier` or `Identifier`, with its span.
pub open spec fn sp_formal(t: Toks, p: int) -> Option<((ParamNode, SourceIDSpan), int)> {
    if 0 <= p && p + 1 < t.len() && t[p].0 is TypeIdentifier && t[p + 1].0 is Identifier {
        let node = ParamNode::Typed(
            t[p].0->TypeIdentifier_0@,
            range_span(t, p, p + 1),
            t[p + 1].0->Identifier_0@,
            range_span(t, p + 1, p + 2),
        );
        Some(((node, range_span(t, p, p + 2)), p + 2))
    } else if 0 <= p < t.len() && t[p].0 is Identifier {
        Some(((ParamNode::Untyped(t[p].0->Identifier_0@), range_span(t, p, p + 1)), p + 1))
    } else {
        None
    }
}

/// `, formal` repeated, after the parameters `params` that end at `q`.
pub open spec fn sp_more_formals(t: Toks, params: Seq<(ParamNode, SourceIDSpan)>, q: int) -> (Seq<(ParamNode, SourceIDSpan)>, int)
    decreases t.len() - q,
{
    if tok_is(t, q, Token::Comma) {
        match sp_formal(t, q + 1) {
            Some((f, q1)) => if q < q1 <= t.len() { sp_more_formals(t, params.push(f), q1) } else { (params, q) },
            None => (params, q),
        }
    } else {
        (params, q)
    }
}

/// `( formal, ..., formal )`, possibly empty, without a trailing comma.
pub open spec fn sp_parameter_list(t: Toks, p: int) -> Option<(Seq<(ParamNode, SourceIDSpan)>, int)> {
    if tok_is(t, p, Token::LParenthesis) {
        let (params, q) = match sp_formal(t, p + 1) {
            Some((f, q1)) => sp_more_formals(t, seq![f], q1),
            None => (seq![], p + 1),
        };
        if tok_is(t, q, Token::RParenthesis) { Some((params, q + 1)) } else { None }
    } else {
        None
    }
}

/// `-> TypeIdentifier` at `p`, or nothing.
pub open spec fn sp_return_type(t: Toks, p: int) -> (Option<(Seq<char>, SourceIDSpan)>, int) {
    if tok_is(t, p, Token::ArrowSingle) && 0 <= p + 1 < t.len() && t[p + 1].0 is TypeIdentifier {
        (Some((t[p + 1].0->TypeIdentifier_0@, range_span(t, p + 1, p + 2))), p + 2)
    } else {
        (None, p)
    }
}

/// `name ( parameters ) -> ReturnType { statements }`, where the return type is optional.
pub open spec fn sp_function(t: Toks, a: Arena, p: int) -> Attempt<usize> {
    if 0 <= p < t.len() && t[p].0 is Identifier {
        match sp_parameter_list(t, p + 1) {
            Some((params, q1)) => {
                let (return_type, q2) = sp_return_type(t, q1);
                if tok_is(t, q2, Token::LCurlyBrace) && forward(t, p, q2) {
                    let (a1, body, q3) = sp_statements(t, a, seq![], q2 + 1);
                    if tok_is(t, q3, Token::RCurlyBrace) {
                        let node = FuncNode {
                            name: t[p].0->Identifier_0@,
                            name_span: range_span(t, p, p + 1),
                            return_type,
                            params,
                            body,
                        };
                        let (a2, id) = add_func(a1, node, range_span(t, p, q3 + 1));
                        (a2, Some((id, q3 + 1)))
                    } else {
                        (a1, None)
                    }
                } else {
                    (a, None)
                }
            },
            None => (a, None),
        }
    } else {
        (a, None)
    }
}

/// Functions, one after another, as long as one can be parsed; appended to `ids`.
pub open spec fn sp_functions(t: Toks, a: Arena, ids: Seq<usize>, p: int) -> (Arena, Seq<usize>, int)
    decreases t.len() - p,
{
    let (a1, r) = sp_function(t, a, p);
    match r {
        Some((id, q)) => if p < q <= t.len() {
            sp_functions(t, a1, ids.push(id), q)
        } else {
            (a1, ids, p)
        },
        None => (a1, ids, p),
    }
}

/// A program: functions up to the end of the tokens, with the span of all the tokens. There is no
/// program when a token is left over. Without tokens, the program has no functions and the empty
/// span at the start of the source `source_id`.
pub open spec fn sp_program(t: Toks, a: Arena, source_id: SourceID) -> (Arena, Option<(Seq<usize>, SourceIDSpan)>) {
    if t.len() == 0 {
        (a, Some((seq![], SourceIDSpan { context: source_id, start: 0, end: 0 })))
    } else {
        let (a1, ids, q) = sp_functions(t, a, seq![], 0);
        if q == t.len() {
            (a1, Some((ids, range_span(t, 0, q))))
        } else {
            (a1, None)
        }
    }
}

} // verus!
