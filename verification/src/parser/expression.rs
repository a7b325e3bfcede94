use vstd::prelude::*;

use crate::ast::{BinaryOperator, BinopExpression, Call, Expression, Literal, UnaryOperator, UnopExpression};
use crate::ast_store::{ASTStore, Arena};
use crate::parser::lexer::{lemma_token_index_fixed, token_index, Token};
use crate::parser::grammar::{
    add_expr, range_span, sp_arguments, sp_binary, sp_call, sp_callee, sp_expression,
    sp_fold, sp_identifier, sp_literal, sp_more_arguments, sp_operator, sp_parenthesized, sp_term,
    sp_typed, sp_unary, tok_is, Attempt, Toks,
};
use crate::span::{SourceIDSpan, SourceIDSpanned};

verus! {

/// The tokens a parser works on: at least one, with room to count past the end.
pub open spec fn parsable(t: Toks) -> bool {
    0 < t.len() < usize::MAX - 2
}

/// The store `arena` and the result `r` are those of the attempt `s`.
pub open spec fn matches_attempt<T>(arena: Arena, r: Option<(T, usize)>, s: Attempt<T>) -> bool {
    &&& arena == s.0
    &&& match r {
        Some((v, q)) => s.1 == Some((v, q as int)),
        None => s.1 is None,
    }
}

/// Whether the token at `p` is the token `k`, which has no payload.
pub fn tok_at(toks: &Vec<(Token, SourceIDSpan)>, p: usize, k: Token) -> (found: bool)
    requires
        !(k is Identifier || k is TypeIdentifier || k is StringLiteral || k is NumberLiteral),
    ensures
        found == tok_is(toks@, p as int, k),
{
    if p < toks.len() {
        let found = token_index(&toks[p].0) == token_index(&k);
        proof {
            if found {
                lemma_token_index_fixed(k, toks@[p as int].0);
            }
        }
        found
    } else {
        false
    }
}

/// The span of the tokens `a..b`.
pub fn span_of(toks: &Vec<(Token, SourceIDSpan)>, a: usize, b: usize) -> (span: SourceIDSpan)
    requires
        toks@.len() > 0,
    ensures
        span == range_span(toks@, a as int, b as int),
{
    let eoi = toks[toks.len() - 1].1;
    if a < toks.len() {
        let end = if 0 < b && b <= toks.len() { toks[b - 1].1.end } else { eoi.end };
        SourceIDSpan { context: eoi.context, start: toks[a].1.start, end }
    } else {
        SourceIDSpan { context: eoi.context, start: eoi.end, end: eoi.end }
    }
}

fn store_expr(store: &mut ASTStore, e: Expression, span: SourceIDSpan) -> (id: usize)
    ensures
        (final(store).arena(), id) == add_expr(old(store).arena(), crate::ast_store::expr_node(e), span),
{
    store.add_expression(e, span)
}

pub fn identifier(toks: &Vec<(Token, SourceIDSpan)>, store: &mut ASTStore, p: usize) -> (r: Option<(usize, usize)>)
    requires
        toks@.len() < usize::MAX - 2,
        p <= toks@.len(),
    ensures
        toks@.len() == 0 ==> r is None && *final(store) == *old(store),
        toks@.len() > 0 ==> matches_attempt(final(store).arena(), r, sp_identifier(toks@, old(store).arena(), p as int)),
{
    if toks.len() == 0 {
        return None;
    }
    if p < toks.len() {
        if let Token::Identifier(name) = &toks[p].0 {
            let span = span_of(toks, p, p + 1);
            let id = store_expr(store, Expression::Identifier(name.clone()), span);
            return Some((id, p + 1));
        }
    }
    None
}

pub fn literal(toks: &Vec<(Token, SourceIDSpan)>, store: &mut ASTStore, p: usize) -> (r: Option<(usize, usize)>)
    requires
        toks@.len() < usize::MAX - 2,
        p <= toks@.len(),
    ensures
        toks@.len() == 0 ==> r is None && *final(store) == *old(store),
        toks@.len() > 0 ==> matches_attempt(final(store).arena(), r, sp_literal(toks@, old(store).arena(), p as int)),
{
    if toks.len() == 0 {
        return None;
    }
    if p < toks.len() {
        if let Token::StringLiteral(text) = &toks[p].0 {
            let span = span_of(toks, p, p + 1);
            let id = store_expr(store, Expression::Literal(Literal::String(text.clone())), span);
            return Some((id, p + 1));
        }
        if let Token::NumberLiteral(text) = &toks[p].0 {
            let span = span_of(toks, p, p + 1);
            let id = store_expr(store, Expression::Literal(Literal::Number(text.clone())), span);
            return Some((id, p + 1));
        }
    }
    if tok_at(toks, p, Token::True) {
        Some((crate::ast_store::TRUE_LITERAL, p + 1))
    } else if tok_at(toks, p, Token::False) {
        Some((crate::ast_store::FALSE_LITERAL, p + 1))
    } else if tok_at(toks, p, Token::LParenthesis) && tok_at(toks, p + 1, Token::RParenthesis) {
        Some((crate::ast_store::UNIT_LITERAL, p + 2))
    } else {
        None
    }
}

/// Parses an expression at `p`.
pub fn expression(toks: &Vec<(Token, SourceIDSpan)>, store: &mut ASTStore, p: usize) -> (r: Option<(usize, usize)>)
    requires
        toks@.len() < usize::MAX - 2,
        p <= toks@.len(),
    ensures
        toks@.len() == 0 ==> r is None && *final(store) == *old(store),
        toks@.len() > 0 ==> matches_attempt(final(store).arena(), r, sp_expression(toks@, old(store).arena(), p as int)),
    decreases toks@.len() - p, 30nat,
{
    if toks.len() == 0 {
        return None;
    }
    let r3 = p_binary(toks, store, p, 3);
    if r3.is_some() {
        return r3;
    }
    let r2 = p_binary(toks, store, p, 2);
    if r2.is_some() {
        return r2;
    }
    let r1 = p_binary(toks, store, p, 1);
    if r1.is_some() {
        return r1;
    }
    let r0 = p_term(toks, store, p);
    if r0.is_some() {
        return r0;
    }
    p_parenthesized(toks, store, p)
}

fn p_operator(toks: &Vec<(Token, SourceIDSpan)>, p: usize, level: u8) -> (op: Option<BinaryOperator>)
    ensures
        op == sp_operator(toks@, p as int, level as nat),
{
    if level == 1 {
        if tok_at(toks, p, Token::Asterisk) { Some(BinaryOperator::Mul) }
        else if tok_at(toks, p, Token::Slash) { Some(BinaryOperator::Div) }
        else if tok_at(toks, p, Token::Percent) { Some(BinaryOperator::Mod) }
        else { None }
    } else if level == 2 {
        if tok_at(toks, p, Token::Plus) { Some(BinaryOperator::Add) }
        else if tok_at(toks, p, Token::Minus) { Some(BinaryOperator::Sub) }
        else if tok_at(toks, p, Token::DoubleAmpersand) { Some(BinaryOperator::And) }
        else if tok_at(toks, p, Token::DoublePipe) { Some(BinaryOperator::Or) }
        else { None }
    } else {
        if tok_at(toks, p, Token::DoubleEquals) { Some(BinaryOperator::Equals) }
        else if tok_at(toks, p, Token::GreaterThan) { Some(BinaryOperator::GreaterThan) }
        else if tok_at(toks, p, Token::LessThan) { Some(BinaryOperator::LessThan) }
        else if tok_at(toks, p, Token::GreaterThanOrEquals) { Some(BinaryOperator::GreaterThanOrEquals) }
        else if tok_at(toks, p, Token::LessThanOrEquals) { Some(BinaryOperator::LessThanOrEquals) }
        else if tok_at(toks, p, Token::NotEquals) { Some(BinaryOperator::NotEquals) }
        else { None }
    }
}

fn p_binary(toks: &Vec<(Token, SourceIDSpan)>, store: &mut ASTStore, p: usize, level: u8) -> (r: Option<(usize, usize)>)
    requires
        parsable(toks@),
        p <= toks@.len(),
    ensures
        matches_attempt(final(store).arena(), r, sp_binary(toks@, old(store).arena(), p as int, level as nat)),
    decreases toks@.len() - p, 21 + 2 * level,
{
    if level == 0 || level > 3 {
        return p_term(toks, store, p);
    }
    match p_binary(toks, store, p, level - 1) {
        Some((lhs, q)) => {
            if p <= q && q <= toks.len() {
                let lhs_span = span_of(toks, p, q);
                let (id, end) = p_fold(toks, store, level, lhs, lhs_span, q);
                Some((id, end))
            } else {
                None
            }
        },
        None => None,
    }
}

fn p_fold(
    toks: &Vec<(Token, SourceIDSpan)>,
    store: &mut ASTStore,
    level: u8,
    lhs: usize,
    lhs_span: SourceIDSpan,
    q: usize,
) -> (r: (usize, usize))
    requires
        parsable(toks@),
        q <= toks@.len(),
        lhs_span.context == toks@[toks@.len() - 1].1.context,
    ensures
        (final(store).arena(), r.0, r.1 as int) == sp_fold(toks@, old(store).arena(), level as nat, lhs, lhs_span, q as int),
    decreases toks@.len() - q, 20 + 2 * level,
{
    if q >= toks.len() || level == 0 || level > 3 {
        return (lhs, q);
    }
    match p_operator(toks, q, level) {
        None => (lhs, q),
        Some(op) => {
            match p_binary(toks, store, q + 1, level - 1) {
                Some((rhs, e)) => {
                    if q + 1 <= e && e <= toks.len() {
                        let span = lhs_span.union(span_of(toks, q, q + 1)).union(span_of(toks, q + 1, e));
                        let id = store_expr(store, Expression::Binop(BinopExpression { op, lhs, rhs }), span);
                        p_fold(toks, store, level, id, span, e)
                    } else {
                        (lhs, q)
                    }
                },
                None => (lhs, q),
            }
        },
    }
}

fn p_term(toks: &Vec<(Token, SourceIDSpan)>, store: &mut ASTStore, p: usize) -> (r: Option<(usize, usize)>)
    requires
        parsable(toks@),
        p <= toks@.len(),
    ensures
        matches_attempt(final(store).arena(), r, sp_term(toks@, old(store).arena(), p as int)),
    decreases toks@.len() - p, 20nat,
{
    let r1 = p_unary(toks, store, p);
    if r1.is_some() {
        return r1;
    }
    let r2 = p_call(toks, store, p);
    if r2.is_some() {
        return r2;
    }
    let r3 = identifier(toks, store, p);
    if r3.is_some() {
        return r3;
    }
    let r4 = literal(toks, store, p);
    if r4.is_some() {
        return r4;
    }
    let r5 = p_typed(toks, store, p);
    if r5.is_some() {
        return r5;
    }
    p_parenthesized(toks, store, p)
}

fn p_unary(toks: &Vec<(Token, SourceIDSpan)>, store: &mut ASTStore, p: usize) -> (r: Option<(usize, usize)>)
    requires
        parsable(toks@),
        p <= toks@.len(),
    ensures
        matches_attempt(final(store).arena(), r, sp_unary(toks@, old(store).arena(), p as int)),
    decreases toks@.len() - p, 19nat,
{
    let bang = tok_at(toks, p, Token::Bang);
    if bang || tok_at(toks, p, Token::Minus) {
        let op = if bang { UnaryOperator::UnaryNot } else { UnaryOperator::UnaryMinus };
        match p_term(toks, store, p + 1) {
            Some((term, q)) => {
                if p + 1 <= q && q <= toks.len() {
                    let span = span_of(toks, p, q);
                    let id = store_expr(store, Expression::Unop(UnopExpression { op, term }), span);
                    Some((id, q))
                } else {
                    None
                }
            },
            None => None,
        }
    } else {
        None
    }
}

fn p_call(toks: &Vec<(Token, SourceIDSpan)>, store: &mut ASTStore, p: usize) -> (r: Option<(usize, usize)>)
    requires
        parsable(toks@),
        p <= toks@.len(),
    ensures
        matches_attempt(final(store).arena(), r, sp_call(toks@, old(store).arena(), p as int)),
    decreases toks@.len() - p, 18nat,
{
    match p_callee(toks, store, p) {
        Some((callee, q)) => {
            if p <= q && q <= toks.len() {
                match p_arguments(toks, store, q) {
                    Some((args, e)) => {
                        if q <= e && e <= toks.len() {
                            let span = span_of(toks, p, e);
                            let id = store_expr(store, Expression::Call(Call { callee, args }), span);
                            Some((id, e))
                        } else {
                            None
                        }
                    },
                    None => None,
                }
            } else {
                None
            }
        },
        None => None,
    }
}

fn p_callee(toks: &Vec<(Token, SourceIDSpan)>, store: &mut ASTStore, p: usize) -> (r: Option<(usize, usize)>)
    requires
        parsable(toks@),
        p <= toks@.len(),
    ensures
        matches_attempt(final(store).arena(), r, sp_callee(toks@, old(store).arena(), p as int)),
    decreases toks@.len() - p, 17nat,
{
    let r = p_parenthesized(toks, store, p);
    if r.is_some() {
        return r;
    }
    identifier(toks, store, p)
}

fn p_parenthesized(toks: &Vec<(Token, SourceIDSpan)>, store: &mut ASTStore, p: usize) -> (r: Option<(usize, usize)>)
    requires
        parsable(toks@),
        p <= toks@.len(),
    ensures
        matches_attempt(final(store).arena(), r, sp_parenthesized(toks@, old(store).arena(), p as int)),
    decreases toks@.len() - p, 16nat,
{
    if tok_at(toks, p, Token::LParenthesis) {
        match expression(toks, store, p + 1) {
            Some((e, q)) => {
                if tok_at(toks, q, Token::RParenthesis) && p + 1 <= q && q <= toks.len() {
                    Some((e, q + 1))
                } else {
                    None
                }
            },
            None => None,
        }
    } else {
        None
    }
}

fn p_arguments(toks: &Vec<(Token, SourceIDSpan)>, store: &mut ASTStore, p: usize) -> (r: Option<(Vec<usize>, usize)>)
    requires
        parsable(toks@),
        p <= toks@.len(),
    ensures
        ({
            let s = sp_arguments(toks@, old(store).arena(), p as int);
            &&& final(store).arena() == s.0
            &&& match r {
                Some((ids, q)) => s.1 == Some((ids@, q as int)),
                None => s.1 is None,
            }
        }),
    decreases toks@.len() - p, 15nat,
{
    if !tok_at(toks, p, Token::LParenthesis) {
        return None;
    }
    let (ids, q) = match expression(toks, store, p + 1) {
        Some((e, q1)) => {
            if p + 1 <= q1 && q1 <= toks.len() {
                let mut ids = Vec::new();
                ids.push(e);
                p_more_arguments(toks, store, ids, q1)
            } else {
                (Vec::new(), p + 1)
            }
        },
        None => (Vec::new(), p + 1),
    };
    if tok_at(toks, q, Token::RParenthesis) {
        Some((ids, q + 1))
    } else {
        None
    }
}

fn p_more_arguments(
    toks: &Vec<(Token, SourceIDSpan)>,
    store: &mut ASTStore,
    ids: Vec<usize>,
    q: usize,
) -> (r: (Vec<usize>, usize))
    requires
        parsable(toks@),
        q <= toks@.len(),
    ensures
        (final(store).arena(), r.0@, r.1 as int) == sp_more_arguments(toks@, old(store).arena(), ids@, q as int),
        r.1 <= toks@.len(),
    decreases toks@.len() - q, 14nat,
{
    if tok_at(toks, q, Token::Comma) {
        match expression(toks, store, q + 1) {
            Some((e, q1)) => {
                if q + 1 <= q1 && q1 <= toks.len() {
                    let mut ids = ids;
                    ids.push(e);
                    p_more_arguments(toks, store, ids, q1)
                } else {
                    (ids, q)
                }
            },
            None => (ids, q),
        }
    } else {
        (ids, q)
    }
}

fn p_typed(toks: &Vec<(Token, SourceIDSpan)>, store: &mut ASTStore, p: usize) -> (r: Option<(usize, usize)>)
    requires
        parsable(toks@),
        p <= toks@.len(),
    ensures
        matches_attempt(final(store).arena(), r, sp_typed(toks@, old(store).arena(), p as int)),
    decreases toks@.len() - p, 13nat,
{
    if p < toks.len() {
        if let Token::TypeIdentifier(type_text) = &toks[p].0 {
            match expression(toks, store, p + 1) {
                Some((e, q)) => {
                    if p + 1 <= q && q <= toks.len() {
                        let type_string = SourceIDSpanned { inner: type_text.clone(), span: span_of(toks, p, p + 1) };
                        let span = span_of(toks, p, q);
                        let id = store_expr(store, Expression::TypedExpression(type_string, e), span);
                        return Some((id, q));
                    } else {
                        return None;
                    }
                },
                None => return None,
            }
        }
    }
    None
}

} // verus!
