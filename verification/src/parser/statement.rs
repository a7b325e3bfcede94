use vstd::prelude::*;

use crate::ast::{BinaryOperator, BinopExpression, Case, Expression, Statement, UnaryOperator, UnopExpression};
use crate::ast_store::{case_node, stmt_node, ASTStore};
use crate::parser::lexer::Token;
use crate::parser::expression::{matches_attempt, expression, parsable, span_of, tok_at};
use crate::parser::grammar::{
    add_stmt, for_tail, sp_assignment, sp_assignment_statement, sp_block, sp_case, sp_cases,
    sp_compound, sp_conditional, sp_const, sp_default_case, sp_else, sp_expression_statement,
    sp_for, sp_for_body, sp_for_condition, sp_for_init, sp_for_step, sp_if_else, sp_let,
    sp_postfix, sp_return, sp_shorthand, sp_shorthand_operator, sp_simple, sp_single,
    sp_statement, sp_statements, sp_switch, sp_switch_body, switch_tail,
};
use crate::span::{SourceIDSpan, SourceIDSpanned};

verus! {

pub fn store_stmt(store: &mut ASTStore, s: Statement, span: SourceIDSpan) -> (id: usize)
    ensures
        (final(store).arena(), id) == add_stmt(old(store).arena(), stmt_node(s), span),
{
    store.add_statement(s, span)
}

/// Parses statements from `p` on for as long as one can be parsed, appending their ids to `ids`.
pub(crate) fn statements(toks: &Vec<(Token, SourceIDSpan)>, store: &mut ASTStore, ids: Vec<usize>, p: usize) -> (r: (Vec<usize>, usize))
    requires
        parsable(toks@),
        p <= toks@.len(),
    ensures
        (final(store).arena(), r.0@, r.1 as int) == sp_statements(toks@, old(store).arena(), ids@, p as int),
        r.1 <= toks@.len(),
    decreases toks@.len() - p, 70nat,
{
    match statement(toks, store, p) {
        Some((id, q)) => {
            if p < q && q <= toks.len() {
                let mut ids = ids;
                ids.push(id);
                statements(toks, store, ids, q)
            } else {
                (ids, p)
            }
        },
        None => (ids, p),
    }
}

/// Parses a statement at `p`.
pub fn statement(toks: &Vec<(Token, SourceIDSpan)>, store: &mut ASTStore, p: usize) -> (r: Option<(usize, usize)>)
    requires
        toks@.len() < usize::MAX - 2,
        p <= toks@.len(),
    ensures
        toks@.len() == 0 ==> r is None && *final(store) == *old(store),
        toks@.len() > 0 ==> matches_attempt(final(store).arena(), r, sp_statement(toks@, old(store).arena(), p as int)),
    decreases toks@.len() - p, 69nat,
{
    if toks.len() == 0 {
        return None;
    }
    let r1 = p_single(toks, store, p);
    if r1.is_some() {
        return r1;
    }
    let r2 = p_block(toks, store, p);
    if r2.is_some() {
        return r2;
    }
    p_compound(toks, store, p)
}

fn p_single(toks: &Vec<(Token, SourceIDSpan)>, store: &mut ASTStore, p: usize) -> (r: Option<(usize, usize)>)
    requires
        parsable(toks@),
        p <= toks@.len(),
    ensures
        matches_attempt(final(store).arena(), r, sp_single(toks@, old(store).arena(), p as int)),
    decreases toks@.len() - p, 68nat,
{
    match simple_statement(toks, store, p) {
        Some((id, q)) => {
            if tok_at(toks, q, Token::Semicolon) && p <= q && q <= toks.len() {
                Some((id, q + 1))
            } else {
                None
            }
        },
        None => None,
    }
}

/// Parses a simple statement (one that ends with `;`, without the `;`) at `p`.
pub(crate) fn simple_statement(toks: &Vec<(Token, SourceIDSpan)>, store: &mut ASTStore, p: usize) -> (r: Option<(usize, usize)>)
    requires
        parsable(toks@),
        p <= toks@.len(),
    ensures
        matches_attempt(final(store).arena(), r, sp_simple(toks@, old(store).arena(), p as int)),
    decreases toks@.len() - p, 67nat,
{
    let r1 = let_statement(toks, store, p);
    if r1.is_some() {
        return r1;
    }
    let r2 = const_statement(toks, store, p);
    if r2.is_some() {
        return r2;
    }
    let r3 = assignment_statement(toks, store, p);
    if r3.is_some() {
        return r3;
    }
    let r4 = return_statement(toks, store, p);
    if r4.is_some() {
        return r4;
    }
    if tok_at(toks, p, Token::Continue) {
        let id = store_stmt(store, Statement::Continue, span_of(toks, p, p + 1));
        return Some((id, p + 1));
    }
    if tok_at(toks, p, Token::Break) {
        let id = store_stmt(store, Statement::Break, span_of(toks, p, p + 1));
        return Some((id, p + 1));
    }
    if tok_at(toks, p, Token::Return) {
        let id = store_stmt(store, Statement::Return(crate::ast_store::UNIT_LITERAL), span_of(toks, p, p + 1));
        return Some((id, p + 1));
    }
    let r6 = expression_statement(toks, store, p);
    if r6.is_some() {
        return r6;
    }
    let id = store_stmt(store, Statement::Empty, span_of(toks, p, p));
    Some((id, p))
}

pub fn let_statement(toks: &Vec<(Token, SourceIDSpan)>, store: &mut ASTStore, p: usize) -> (r: Option<(usize, usize)>)
    requires
        toks@.len() < usize::MAX - 2,
        p <= toks@.len(),
    ensures
        toks@.len() == 0 ==> r is None && *final(store) == *old(store),
        toks@.len() > 0 ==> matches_attempt(final(store).arena(), r, sp_let(toks@, old(store).arena(), p as int)),
    decreases toks@.len() - p, 66nat,
{
    if toks.len() == 0 {
        return None;
    }
    if !tok_at(toks, p, Token::Let) {
        return None;
    }
    match assignment(toks, store, p + 1) {
        Some(((lhs, rhs), q)) => {
            if p + 1 <= q && q <= toks.len() {
                let id = store_stmt(store, Statement::Let(lhs, rhs), span_of(toks, p, q));
                Some((id, q))
            } else {
                None
            }
        },
        None => None,
    }
}

pub fn const_statement(toks: &Vec<(Token, SourceIDSpan)>, store: &mut ASTStore, p: usize) -> (r: Option<(usize, usize)>)
    requires
        toks@.len() < usize::MAX - 2,
        p <= toks@.len(),
    ensures
        toks@.len() == 0 ==> r is None && *final(store) == *old(store),
        toks@.len() > 0 ==> matches_attempt(final(store).arena(), r, sp_const(toks@, old(store).arena(), p as int)),
    decreases toks@.len() - p, 65nat,
{
    if toks.len() == 0 {
        return None;
    }
    if !tok_at(toks, p, Token::Const) {
        return None;
    }
    match assignment(toks, store, p + 1) {
        Some(((lhs, rhs), q)) => {
            if p + 1 <= q && q <= toks.len() {
                let id = store_stmt(store, Statement::Const(lhs, rhs), span_of(toks, p, q));
                Some((id, q))
            } else {
                None
            }
        },
        None => None,
    }
}

pub fn assignment_statement(toks: &Vec<(Token, SourceIDSpan)>, store: &mut ASTStore, p: usize) -> (r: Option<(usize, usize)>)
    requires
        toks@.len() < usize::MAX - 2,
        p <= toks@.len(),
    ensures
        toks@.len() == 0 ==> r is None && *final(store) == *old(store),
        toks@.len() > 0 ==> matches_attempt(final(store).arena(), r, sp_assignment_statement(toks@, old(store).arena(), p as int)),
    decreases toks@.len() - p, 64nat,
{
    if toks.len() == 0 {
        return None;
    }
    let mut r = assignment(toks, store, p);
    if r.is_none() {
        r = shorthand_assignment(toks, store, p);
        if r.is_none() {
            r = postfix_assignment(toks, store, p);
        }
    }
    match r {
        Some(((lhs, rhs), q)) => {
            if p <= q && q <= toks.len() {
                let id = store_stmt(store, Statement::Assignment(lhs, rhs), span_of(toks, p, q));
                Some((id, q))
            } else {
                None
            }
        },
        None => None,
    }
}

pub fn assignment(toks: &Vec<(Token, SourceIDSpan)>, store: &mut ASTStore, p: usize) -> (r: Option<((usize, usize), usize)>)
    requires
        toks@.len() < usize::MAX - 2,
        p <= toks@.len(),
    ensures
        toks@.len() == 0 ==> r is None && *final(store) == *old(store),
        toks@.len() > 0 ==> matches_attempt(final(store).arena(), r, sp_assignment(toks@, old(store).arena(), p as int)),
    decreases toks@.len() - p, 60nat,
{
    if toks.len() == 0 {
        return None;
    }
    match expression(toks, store, p) {
        Some((lhs, q)) => {
            if tok_at(toks, q, Token::SingleEquals) && p <= q && q <= toks.len() {
                match expression(toks, store, q + 1) {
                    Some((rhs, e)) => {
                        if q + 1 <= e && e <= toks.len() { Some(((lhs, rhs), e)) } else { None }
                    },
                    None => None,
                }
            } else {
                None
            }
        },
        None => None,
    }
}

pub fn shorthand_assignment_operator(toks: &Vec<(Token, SourceIDSpan)>, p: usize) -> (op: Option<BinaryOperator>)
    ensures
        op == sp_shorthand_operator(toks@, p as int),
{
    if tok_at(toks, p, Token::PlusEquals) { Some(BinaryOperator::Add) }
    else if tok_at(toks, p, Token::MinusEquals) { Some(BinaryOperator::Sub) }
    else if tok_at(toks, p, Token::AsteriskEquals) { Some(BinaryOperator::Mul) }
    else if tok_at(toks, p, Token::SlashEquals) { Some(BinaryOperator::Div) }
    else if tok_at(toks, p, Token::PercentEquals) { Some(BinaryOperator::Mod) }
    else { None }
}

pub fn shorthand_assignment(toks: &Vec<(Token, SourceIDSpan)>, store: &mut ASTStore, p: usize) -> (r: Option<((usize, usize), usize)>)
    requires
        toks@.len() < usize::MAX - 2,
        p <= toks@.len(),
    ensures
        toks@.len() == 0 ==> r is None && *final(store) == *old(store),
        toks@.len() > 0 ==> matches_attempt(final(store).arena(), r, sp_shorthand(toks@, old(store).arena(), p as int)),
    decreases toks@.len() - p, 59nat,
{
    if toks.len() == 0 {
        return None;
    }
    match expression(toks, store, p) {
        Some((lhs, q)) => {
            if p <= q && q <= toks.len() {
                match shorthand_assignment_operator(toks, q) {
                    Some(op) => {
                        match expression(toks, store, q + 1) {
                            Some((rhs, e)) => {
                                if q + 1 <= e && e <= toks.len() {
                                    let span = span_of(toks, q, q + 1).union(span_of(toks, q + 1, e));
                                    let id = store.add_expression(Expression::Binop(BinopExpression { op, lhs, rhs }), span);
                                    Some(((lhs, id), e))
                                } else {
                                    None
                                }
                            },
                            None => None,
                        }
                    },
                    None => None,
                }
            } else {
                None
            }
        },
        None => None,
    }
}

pub fn postfix_assignment(toks: &Vec<(Token, SourceIDSpan)>, store: &mut ASTStore, p: usize) -> (r: Option<((usize, usize), usize)>)
    requires
        toks@.len() < usize::MAX - 2,
        p <= toks@.len(),
    ensures
        toks@.len() == 0 ==> r is None && *final(store) == *old(store),
        toks@.len() > 0 ==> matches_attempt(final(store).arena(), r, sp_postfix(toks@, old(store).arena(), p as int)),
    decreases toks@.len() - p, 58nat,
{
    if toks.len() == 0 {
        return None;
    }
    match expression(toks, store, p) {
        Some((lhs, q)) => {
            if p <= q && q <= toks.len() {
                let span = span_of(toks, q, q + 2);
                if tok_at(toks, q, Token::Plus) && tok_at(toks, q + 1, Token::Plus) {
                    let e = Expression::Binop(BinopExpression { op: BinaryOperator::Add, lhs, rhs: crate::ast_store::NUMBER_1_LITERAL });
                    let id = store.add_expression(e, span);
                    Some(((lhs, id), q + 2))
                } else if tok_at(toks, q, Token::Minus) && tok_at(toks, q + 1, Token::Minus) {
                    let e = Expression::Binop(BinopExpression { op: BinaryOperator::Sub, lhs, rhs: crate::ast_store::NUMBER_1_LITERAL });
                    let id = store.add_expression(e, span);
                    Some(((lhs, id), q + 2))
                } else if tok_at(toks, q, Token::Bang) && tok_at(toks, q + 1, Token::Bang) {
                    let e = Expression::Unop(UnopExpression { op: UnaryOperator::UnaryNot, term: lhs });
                    let id = store.add_expression(e, span);
                    Some(((lhs, id), q + 2))
                } else {
                    None
                }
            } else {
                None
            }
        },
        None => None,
    }
}

pub fn return_statement(toks: &Vec<(Token, SourceIDSpan)>, store: &mut ASTStore, p: usize) -> (r: Option<(usize, usize)>)
    requires
        toks@.len() < usize::MAX - 2,
        p <= toks@.len(),
    ensures
        toks@.len() == 0 ==> r is None && *final(store) == *old(store),
        toks@.len() > 0 ==> matches_attempt(final(store).arena(), r, sp_return(toks@, old(store).arena(), p as int)),
    decreases toks@.len() - p, 57nat,
{
    if toks.len() == 0 {
        return None;
    }
    if !tok_at(toks, p, Token::Return) {
        return None;
    }
    match expression(toks, store, p + 1) {
        Some((e, q)) => {
            if p + 1 <= q && q <= toks.len() {
                let id = store_stmt(store, Statement::Return(e), span_of(toks, p, q));
                Some((id, q))
            } else {
                None
            }
        },
        None => None,
    }
}

pub fn expression_statement(toks: &Vec<(Token, SourceIDSpan)>, store: &mut ASTStore, p: usize) -> (r: Option<(usize, usize)>)
    requires
        toks@.len() < usize::MAX - 2,
        p <= toks@.len(),
    ensures
        toks@.len() == 0 ==> r is None && *final(store) == *old(store),
        toks@.len() > 0 ==> matches_attempt(final(store).arena(), r, sp_expression_statement(toks@, old(store).arena(), p as int)),
    decreases toks@.len() - p, 56nat,
{
    if toks.len() == 0 {
        return None;
    }
    match expression(toks, store, p) {
        Some((e, q)) => {
            if p <= q && q <= toks.len() {
                let id = store_stmt(store, Statement::Expression(e), span_of(toks, p, q));
                Some((id, q))
            } else {
                None
            }
        },
        None => None,
    }
}

fn p_block(toks: &Vec<(Token, SourceIDSpan)>, store: &mut ASTStore, p: usize) -> (r: Option<(usize, usize)>)
    requires
        parsable(toks@),
        p <= toks@.len(),
    ensures
        matches_attempt(final(store).arena(), r, sp_block(toks@, old(store).arena(), p as int)),
    decreases toks@.len() - p, 55nat,
{
    if !tok_at(toks, p, Token::LCurlyBrace) {
        return None;
    }
    let (ids, q) = statements(toks, store, Vec::new(), p + 1);
    if tok_at(toks, q, Token::RCurlyBrace) {
        let id = store_stmt(store, Statement::Block(ids), span_of(toks, p, q + 1));
        Some((id, q + 1))
    } else {
        None
    }
}

fn p_compound(toks: &Vec<(Token, SourceIDSpan)>, store: &mut ASTStore, p: usize) -> (r: Option<(usize, usize)>)
    requires
        parsable(toks@),
        p <= toks@.len(),
    ensures
        matches_attempt(final(store).arena(), r, sp_compound(toks@, old(store).arena(), p as int)),
    decreases toks@.len() - p, 54nat,
{
    let r1 = p_if_else(toks, store, p);
    if r1.is_some() {
        return r1;
    }
    let r2 = p_conditional(toks, store, p, Token::If, false);
    if r2.is_some() {
        return r2;
    }
    let r3 = p_switch(toks, store, p);
    if r3.is_some() {
        return r3;
    }
    let r4 = p_conditional(toks, store, p, Token::While, true);
    if r4.is_some() {
        return r4;
    }
    p_for(toks, store, p)
}

fn p_if_else(toks: &Vec<(Token, SourceIDSpan)>, store: &mut ASTStore, p: usize) -> (r: Option<(usize, usize)>)
    requires
        parsable(toks@),
        p <= toks@.len(),
    ensures
        matches_attempt(final(store).arena(), r, sp_if_else(toks@, old(store).arena(), p as int)),
    decreases toks@.len() - p, 53nat,
{
    match p_conditional(toks, store, p, Token::If, false) {
        Some((if_id, q)) => {
            if tok_at(toks, q, Token::Else) && p <= q && q <= toks.len() {
                p_else(toks, store, p, if_id, q)
            } else {
                None
            }
        },
        None => None,
    }
}

fn p_else(toks: &Vec<(Token, SourceIDSpan)>, store: &mut ASTStore, p: usize, if_id: usize, q: usize) -> (r: Option<(usize, usize)>)
    requires
        parsable(toks@),
        q < toks@.len(),
    ensures
        matches_attempt(final(store).arena(), r, sp_else(toks@, old(store).arena(), p as int, if_id, q as int)),
    decreases toks@.len() - q, 43nat,
{
    match statement(toks, store, q + 1) {
        Some((else_id, e)) => {
            if q + 1 <= e && e <= toks.len() {
                let id = store_stmt(store, Statement::IfElse(if_id, else_id), span_of(toks, p, e));
                Some((id, e))
            } else {
                None
            }
        },
        None => None,
    }
}

fn p_conditional(toks: &Vec<(Token, SourceIDSpan)>, store: &mut ASTStore, p: usize, keyword: Token, is_while: bool) -> (r: Option<(usize, usize)>)
    requires
        parsable(toks@),
        p <= toks@.len(),
        keyword == Token::If || keyword == Token::While,
    ensures
        matches_attempt(final(store).arena(), r, sp_conditional(toks@, old(store).arena(), p as int, keyword, is_while)),
    decreases toks@.len() - p, 44nat,
{
    if !(tok_at(toks, p, keyword) && tok_at(toks, p + 1, Token::LParenthesis)) {
        return None;
    }
    match expression(toks, store, p + 2) {
        Some((c, q)) => {
            if tok_at(toks, q, Token::RParenthesis) && p + 2 <= q && q <= toks.len() {
                match statement(toks, store, q + 1) {
                    Some((body, e)) => {
                        if q + 1 <= e && e <= toks.len() {
                            let node = if is_while {
                                Statement::While { condition: c, body }
                            } else {
                                Statement::If { condition: c, body }
                            };
                            let id = store_stmt(store, node, span_of(toks, p, e));
                            Some((id, e))
                        } else {
                            None
                        }
                    },
                    None => None,
                }
            } else {
                None
            }
        },
        None => None,
    }
}

fn p_switch(toks: &Vec<(Token, SourceIDSpan)>, store: &mut ASTStore, p: usize) -> (r: Option<(usize, usize)>)
    requires
        parsable(toks@),
        p <= toks@.len(),
    ensures
        matches_attempt(final(store).arena(), r, sp_switch(toks@, old(store).arena(), p as int)),
    decreases toks@.len() - p, 51nat,
{
    if !tok_at(toks, p, Token::Switch) {
        return None;
    }
    match expression(toks, store, p + 1) {
        Some((m, q)) => {
            if tok_at(toks, q, Token::LCurlyBrace) && p + 1 <= q && q <= toks.len() {
                p_switch_body(toks, store, p, m, q)
            } else {
                None
            }
        },
        None => None,
    }
}

fn p_switch_body(toks: &Vec<(Token, SourceIDSpan)>, store: &mut ASTStore, p: usize, m: usize, q: usize) -> (r: Option<(usize, usize)>)
    requires
        parsable(toks@),
        q < toks@.len(),
    ensures
        matches_attempt(final(store).arena(), r, sp_switch_body(toks@, old(store).arena(), p as int, m, q as int)),
    decreases toks@.len() - q, 43nat,
{
    proof {
        assert(Seq::<SourceIDSpanned<Case>>::empty().map_values(|c: SourceIDSpanned<Case>| case_node(c)) =~= seq![]);
    }
    let (cases, e) = p_cases(toks, store, Vec::new(), q + 1);
    store_switch(toks, store, p, m, cases, e)
}

fn p_cases(
    toks: &Vec<(Token, SourceIDSpan)>,
    store: &mut ASTStore,
    cases: Vec<SourceIDSpanned<Case>>,
    p: usize,
) -> (r: (Vec<SourceIDSpanned<Case>>, usize))
    requires
        parsable(toks@),
        p <= toks@.len(),
    ensures
        (final(store).arena(), r.0@.map_values(|c: SourceIDSpanned<Case>| case_node(c)), r.1 as int)
            == sp_cases(toks@, old(store).arena(), cases@.map_values(|c: SourceIDSpanned<Case>| case_node(c)), p as int),
        r.1 <= toks@.len(),
    decreases toks@.len() - p, 50nat,
{
    let mut r = p_case(toks, store, p);
    if r.is_none() {
        r = p_default_case(toks, store, p);
    }
    match r {
        Some((c, q)) => {
            if p < q && q <= toks.len() {
                let mut cases = cases;
                let ghost before = cases@;
                cases.push(c);
                proof {
                    assert(cases@.map_values(|c: SourceIDSpanned<Case>| case_node(c))
                        =~= before.map_values(|c: SourceIDSpanned<Case>| case_node(c)).push(case_node(c)));
                }
                p_cases(toks, store, cases, q)
            } else {
                (cases, p)
            }
        },
        None => (cases, p),
    }
}

fn p_case(toks: &Vec<(Token, SourceIDSpan)>, store: &mut ASTStore, p: usize) -> (r: Option<(SourceIDSpanned<Case>, usize)>)
    requires
        parsable(toks@),
        p <= toks@.len(),
    ensures
        ({
            let s = sp_case(toks@, old(store).arena(), p as int);
            &&& final(store).arena() == s.0
            &&& match r {
                Some((c, q)) => s.1 == Some((case_node(c), q as int)),
                None => s.1 is None,
            }
        }),
    decreases toks@.len() - p, 49nat,
{
    if tok_at(toks, p, Token::Case) && p + 1 < toks.len() && tok_at(toks, p + 2, Token::Colon) {
        if let Token::NumberLiteral(value) = &toks[p + 1].0 {
            let matched_value = SourceIDSpanned { inner: value.clone(), span: span_of(toks, p + 1, p + 2) };
            let (body, q) = statements(toks, store, Vec::new(), p + 3);
            let case = SourceIDSpanned { inner: Case { matched_value: Some(matched_value), body }, span: span_of(toks, p, q) };
            return Some((case, q));
        }
    }
    None
}

fn p_default_case(toks: &Vec<(Token, SourceIDSpan)>, store: &mut ASTStore, p: usize) -> (r: Option<(SourceIDSpanned<Case>, usize)>)
    requires
        parsable(toks@),
        p <= toks@.len(),
    ensures
        ({
            let s = sp_default_case(toks@, old(store).arena(), p as int);
            &&& final(store).arena() == s.0
            &&& match r {
                Some((c, q)) => s.1 == Some((case_node(c), q as int)),
                None => s.1 is None,
            }
        }),
    decreases toks@.len() - p, 48nat,
{
    if tok_at(toks, p, Token::Default) && tok_at(toks, p + 1, Token::Colon) {
        let (body, q) = statements(toks, store, Vec::new(), p + 2);
        let case = SourceIDSpanned { inner: Case { matched_value: None, body }, span: span_of(toks, p, q) };
        Some((case, q))
    } else {
        None
    }
}

fn p_for_init(toks: &Vec<(Token, SourceIDSpan)>, store: &mut ASTStore, p: usize) -> (r: Option<(usize, usize)>)
    requires
        parsable(toks@),
        p <= toks@.len(),
    ensures
        matches_attempt(final(store).arena(), r, sp_for_init(toks@, old(store).arena(), p as int)),
    decreases toks@.len() - p, 67nat,
{
    let r = let_statement(toks, store, p);
    if r.is_some() {
        return r;
    }
    assignment_statement(toks, store, p)
}

fn p_for(toks: &Vec<(Token, SourceIDSpan)>, store: &mut ASTStore, p: usize) -> (r: Option<(usize, usize)>)
    requires
        parsable(toks@),
        p <= toks@.len(),
    ensures
        matches_attempt(final(store).arena(), r, sp_for(toks@, old(store).arena(), p as int)),
    decreases toks@.len() - p, 46nat,
{
    if !(tok_at(toks, p, Token::For) && tok_at(toks, p + 1, Token::LParenthesis)) {
        return None;
    }
    match p_for_init(toks, store, p + 2) {
        Some((init, q)) => {
            if tok_at(toks, q, Token::Semicolon) && p + 2 <= q && q <= toks.len() {
                p_for_condition(toks, store, p, init, q)
            } else {
                None
            }
        },
        None => None,
    }
}

fn p_for_condition(toks: &Vec<(Token, SourceIDSpan)>, store: &mut ASTStore, p: usize, init: usize, q: usize) -> (r: Option<(usize, usize)>)
    requires
        parsable(toks@),
        q < toks@.len(),
    ensures
        matches_attempt(final(store).arena(), r, sp_for_condition(toks@, old(store).arena(), p as int, init, q as int)),
    decreases toks@.len() - q, 43nat,
{
    match expression(toks, store, q + 1) {
        Some((c, q2)) => {
            if tok_at(toks, q2, Token::Semicolon) && q + 1 <= q2 && q2 <= toks.len() {
                p_for_step(toks, store, p, init, c, q2)
            } else {
                None
            }
        },
        None => None,
    }
}

fn p_for_step(toks: &Vec<(Token, SourceIDSpan)>, store: &mut ASTStore, p: usize, init: usize, c: usize, q: usize) -> (r: Option<(usize, usize)>)
    requires
        parsable(toks@),
        q < toks@.len(),
    ensures
        matches_attempt(final(store).arena(), r, sp_for_step(toks@, old(store).arena(), p as int, init, c, q as int)),
    decreases toks@.len() - q, 42nat,
{
    match simple_statement(toks, store, q + 1) {
        Some((step, q3)) => {
            if tok_at(toks, q3, Token::RParenthesis) && q + 1 <= q3 && q3 <= toks.len() {
                p_for_body(toks, store, p, (init, c, step), q3)
            } else {
                None
            }
        },
        None => None,
    }
}

fn p_for_body(
    toks: &Vec<(Token, SourceIDSpan)>,
    store: &mut ASTStore,
    p: usize,
    header: (usize, usize, usize),
    q: usize,
) -> (r: Option<(usize, usize)>)
    requires
        parsable(toks@),
        q < toks@.len(),
    ensures
        matches_attempt(final(store).arena(), r, sp_for_body(toks@, old(store).arena(), p as int, header, q as int)),
    decreases toks@.len() - q, 41nat,
{
    let body = statement(toks, store, q + 1);
    store_for(toks, store, p, header, q, body)
}

/// `r` as an attempt's result.
pub open spec fn attempt_result<T>(r: Option<(T, usize)>) -> Option<(T, int)> {
    match r {
        Some((v, q)) => Some((v, q as int)),
        None => None,
    }
}

/// Stores the `for` statement whose body was parsed as `body`.
fn store_for(
    toks: &Vec<(Token, SourceIDSpan)>,
    store: &mut ASTStore,
    p: usize,
    header: (usize, usize, usize),
    q: usize,
    body: Option<(usize, usize)>,
) -> (r: Option<(usize, usize)>)
    requires
        parsable(toks@),
        q < toks@.len(),
    ensures
        matches_attempt(final(store).arena(), r, for_tail(toks@, p as int, header, q as int, (old(store).arena(), attempt_result(body)))),
{
    match body {
        Some((body, e)) => {
            if q + 1 <= e && e <= toks.len() {
                let (init, c, step) = header;
                let id = store_stmt(store, Statement::For { init, condition: c, step, body }, span_of(toks, p, e));
                Some((id, e))
            } else {
                None
            }
        },
        None => None,
    }
}

/// Stores the `switch` on `m` whose cases were parsed as `cases`, ending at `e`.
fn store_switch(
    toks: &Vec<(Token, SourceIDSpan)>,
    store: &mut ASTStore,
    p: usize,
    m: usize,
    cases: Vec<SourceIDSpanned<Case>>,
    e: usize,
) -> (r: Option<(usize, usize)>)
    requires
        parsable(toks@),
        e <= toks@.len(),
    ensures
        matches_attempt(final(store).arena(), r, switch_tail(toks@, p as int, m,
            (old(store).arena(), cases@.map_values(|c: SourceIDSpanned<Case>| case_node(c)), e as int))),
{
    if tok_at(toks, e, Token::RCurlyBrace) {
        let id = store_stmt(store, Statement::Switch { matched_value_expression: m, cases }, span_of(toks, p, e + 1));
        Some((id, e + 1))
    } else {
        None
    }
}

} // verus!
